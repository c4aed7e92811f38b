use vstd::prelude::*;
use vstd::multiset::Multiset;
use crate::buffer::Buffer;
use crate::cache::{after_get, apart, backed, hit, kept, nodes_below, Cache, CacheEntry};
use crate::count::Ident;
use crate::devices::cpu::CPU;
use crate::error::DeviceError;
use crate::graph::Deps;
use crate::ledger::{
    balanced, in_hands, lemma_balance_exists, lemma_balance_unique, lemma_balanced_drawn,
    lemma_balanced_dropped, lemma_balanced_grad, lemma_in_hand_can_go, sound,
};
use crate::number::Number;
use crate::op_traits::{entry_of, Device, DeviceSpec};

verus! {

/// The error that a request under `ident` is refused with.
pub open spec fn refusal(ident: Ident) -> DeviceError {
    if ident.len == 0 {
        DeviceError::InvalidLength
    } else {
        DeviceError::AllocationError
    }
}

/// The buffers of the gradients, drawn from a cache of their own under the
/// identities of the buffers they belong to.
pub struct Gradients {
    cache: Cache,
}

impl View for Gradients {
    type V = Map<u64, CacheEntry>;

    /// The filled slots of the cache of gradients.
    closed spec fn view(&self) -> Map<u64, CacheEntry> {
        self.cache@
    }
}

impl Gradients {
    pub closed spec fn wf(&self) -> bool {
        self.cache.wf()
    }

    /// No gradient sits in two slots.
    pub proof fn lemma_one_slot(&self, a: u64, b: u64)
        requires
            self.wf(),
            self@.contains_key(a),
            self@.contains_key(b),
            self@[a].handle == self@[b].handle,
        ensures
            a == b,
    {
        self.cache.lemma_one_slot(a, b);
    }

    /// The gradients are buffers of `device`: alive there, apart from what
    /// the device's own cache keeps.
    pub open spec fn on<T: Number>(&self, device: &CPU<T>) -> bool {
        &&& self.wf()
        &&& backed(self@, device.live())
        &&& apart(self@, device.slots())
        &&& nodes_below(self@, device.nodes().len())
    }

    /// Gradients on a device are sound with it.
    pub proof fn lemma_sound<T: Number>(&self, device: &CPU<T>)
        requires
            device.wf(),
            self.on(device),
        ensures
            sound(*device, self@),
    {
        assert forall|a: u64, b: u64|
            self@.contains_key(a) && self@.contains_key(b) && #[trigger] self@[a].handle
                == #[trigger] self@[b].handle implies a == b by {
            self.cache.lemma_one_slot(a, b);
        }
    }

    /// No gradients yet.
    pub fn new() -> (grads: Gradients)
        ensures
            grads.wf(),
            grads@ == Map::<u64, CacheEntry>::empty(),
    {
        Gradients { cache: Cache::new() }
    }

    /// Number of gradient buffers.
    pub fn len(&self) -> (n: usize)
        ensures
            n == self@.len(),
    {
        self.cache.len()
    }

    /// Whether a request under `ident` will be granted on `device`: it asks
    /// for an element at least, and the gradient it hits can take one more
    /// holder, or the device has room for the gradient it misses.
    pub open spec fn grants<T: Number>(&self, device: &CPU<T>, ident: Ident) -> bool {
        ident.len > 0 && (if hit(self@, ident) {
            device.live()[self@[ident.count].handle].refs < usize::MAX
        } else {
            device.has_room(ident.len)
        })
    }

    /// What a request under `ident` on the gradients `before` and the device
    /// `before_dev` leaves behind, where it was answered with `buf`: on a hit
    /// the gradient in the slot with one more holder; on a miss a new gradient
    /// of zeros in the slot, without a node in the graph.
    pub open spec fn fetched<T: Number>(
        &self,
        device: &CPU<T>,
        before: &Gradients,
        before_dev: &CPU<T>,
        ident: Ident,
        buf: &Buffer<T>,
    ) -> bool {
        &&& device.drawn_from(before_dev, before@, ident, None, buf)
        &&& device.data() == before_dev.data_after_get(before@, ident, buf.raw().handle)
        &&& device.slots() == before_dev.slots()
        &&& self@ == after_get(before@, ident, entry_of(buf))
    }

    /// The buffer of the gradient that belongs to the identity `ident`, on
    /// `device`: the one handed out for `ident` before, or a new one of zeros.
    ///
    /// Fails with `InvalidLength` where `ident` asks for no elements, and
    /// with `AllocationError` where the device refuses; a failure changes
    /// nothing.
    pub fn get_like_raw<T: Number>(&mut self, device: &mut CPU<T>, ident: Ident) -> (res: Result<
        Buffer<T>,
        DeviceError,
    >)
        requires
            old(device).wf(),
            old(self).on(old(device)),
        ensures
            final(device).wf(),
            final(self).on(final(device)),
            res.is_ok() <==> old(self).grants(old(device), ident),
            res matches Err(e) ==> {
                &&& e == (if ident.len == 0 {
                    DeviceError::InvalidLength
                } else {
                    DeviceError::AllocationError
                })
                &&& final(device).same_as(old(device))
                &&& final(self)@ == old(self)@
            },
            res matches Ok(buf) ==> final(self).fetched(
                final(device),
                old(self),
                old(device),
                ident,
                &buf,
            ) && final(device).holds(&buf),
    {
        device.get_from(&mut self.cache, ident, None)
    }

    /// The buffer of the gradient that belongs to `buf`: see `get_like_raw`.
    ///
    /// Gradients are kept by identity, so `buf` has to have one: it was drawn
    /// from a cache, by `CacheBuf::cached`, `CPU::cached_with` or an
    /// operation. A buffer made outside the cache has no gradient.
    pub fn get_like<T: Number>(&mut self, device: &mut CPU<T>, buf: &Buffer<T>) -> (res: Result<
        Buffer<T>,
        DeviceError,
    >)
        requires
            old(device).wf(),
            old(self).on(old(device)),
            buf.slot() is Some,
        ensures
            final(device).wf(),
            final(self).on(final(device)),
            res.is_ok() <==> old(self).grants(old(device), buf.slot()->0),
            res matches Err(e) ==> {
                &&& e == (if buf.slot()->0.len == 0 {
                    DeviceError::InvalidLength
                } else {
                    DeviceError::AllocationError
                })
                &&& final(device).same_as(old(device))
                &&& final(self)@ == old(self)@
            },
            res matches Ok(grad) ==> final(self).fetched(
                final(device),
                old(self),
                old(device),
                buf.slot()->0,
                &grad,
            ) && final(device).holds(&grad),
    {
        self.get_like_raw(device, buf.ident().unwrap())
    }
}

/// A request to the cache of the device leaves the gradients on the device,
/// and the buffer it hands out is held besides the cache.
pub proof fn lemma_on_after_fetch<T: Number>(
    grads: Gradients,
    before: CPU<T>,
    after: CPU<T>,
    ident: Ident,
    deps: Option<Deps>,
    buf: Buffer<T>,
)
    requires
        before.wf(),
        grads.on(&before),
        before.grants(ident),
        after.drawn(&before, ident, deps, &buf),
    ensures
        grads.on(&after),
        after.live()[buf.raw().handle].refs >= 2,
        kept(after.slots(), buf.raw().handle),
{
    before.lemma_wf();
    assert(after.slots().contains_key(ident.count));
    if before.slots().contains_key(ident.count) {
        assert(before.live().contains_key(before.slots()[ident.count].handle));
    }
    assert forall|c: u64| #[trigger] grads@.contains_key(c) implies after.live().contains_key(
        grads@[c].handle,
    ) && after.live()[grads@[c].handle].len == grads@[c].len by {
        assert(before.live().contains_key(grads@[c].handle));
        if before.slots().contains_key(ident.count) {
            assert(grads@[c].handle != before.slots()[ident.count].handle);
        }
    }
    assert forall|x: u64, y: u64|
        grads@.contains_key(x) && after.slots().contains_key(y) implies #[trigger] grads@[x].handle
        != #[trigger] after.slots()[y].handle by {
        assert(before.live().contains_key(grads@[x].handle));
        if y != ident.count || hit(before.slots(), ident) {
            assert(before.slots().contains_key(y));
        }
    }
}

/// The device `after` is the device `before` with the buffers `bufs` given
/// up, the last of them first.
pub open spec fn given_up<T: Number>(before: CPU<T>, bufs: Seq<Buffer<T>>, after: CPU<T>) -> bool
    decreases bufs.len(),
{
    if bufs.len() == 0 {
        after == before
    } else {
        exists|mid: CPU<T>, gone: bool| #[trigger]
            mid.dropped(&before, &bufs.last(), gone) && given_up(mid, bufs.drop_last(), after)
    }
}

/// The handles of the buffers `bufs`, each as often as a buffer points to it.
pub open spec fn handles_of<T>(bufs: Seq<Buffer<T>>) -> Multiset<u64>
    decreases bufs.len(),
{
    if bufs.len() == 0 {
        Multiset::empty()
    } else {
        handles_of(bufs.drop_last()).insert(bufs.last().raw().handle)
    }
}

/// Gives up the buffers `bufs`, the last of them first.
fn release_all<T: Number>(
    device: &mut CPU<T>,
    bufs: Vec<Buffer<T>>,
    Ghost(grads): Ghost<Map<u64, CacheEntry>>,
    Ghost(others): Ghost<Multiset<u64>>,
)
    requires
        sound(*old(device), grads),
        balanced(*old(device), grads, others.add(handles_of(bufs@))),
        forall|i: int|
            0 <= i < bufs@.len() ==> old(device).holds(#[trigger] &bufs@[i])
                && bufs@[i].raw().flag.counts(),
    ensures
        sound(*final(device), grads),
        balanced(*final(device), grads, others),
        given_up(*old(device), bufs@, *final(device)),
        final(device).slots() == old(device).slots(),
        final(device).nodes() == old(device).nodes(),
        forall|held: Buffer<T>|
            old(device).holds(&held) && others.count(held.raw().handle) >= 1
                ==> #[trigger] final(device).holds(&held),
{
    let ghost all = bufs@;
    let ghost start = *device;
    let mut left = bufs;
    while left.len() > 0
        invariant
            all == bufs@,
            start == *old(device),
            sound(*device, grads),
            balanced(*device, grads, others.add(handles_of(left@))),
            forall|i: int|
                0 <= i < left@.len() ==> device.holds(#[trigger] &left@[i])
                    && left@[i].raw().flag.counts(),
            device.slots() == start.slots(),
            device.nodes() == start.nodes(),
            forall|held: Buffer<T>|
                start.holds(&held) && others.count(held.raw().handle) >= 1
                    ==> #[trigger] device.holds(&held),
            forall|end: CPU<T>| #[trigger]
                given_up(*device, left@, end) ==> given_up(start, all, end),
        decreases left@.len(),
    {
        let ghost rest = left@;
        let ghost before = *device;
        let ghost hands = others.add(handles_of(rest));
        let buf = left.pop();
        let buf = buf.unwrap();
        proof {
            assert(buf == rest.last());
            assert(left@ =~= rest.drop_last());
            assert(before.holds(&rest[rest.len() - 1]));
            assert(hands.count(buf.raw().handle) >= 1);
            lemma_in_hand_can_go(before, grads, hands, buf);
        }
        let ghost copy = buf;
        let gone = device.release(buf);
        proof {
            lemma_balanced_dropped(before, *device, grads, hands, copy, gone);
            assert(hands.remove(copy.raw().handle) =~= others.add(handles_of(left@)));
            assert forall|i: int| 0 <= i < left@.len() implies device.holds(#[trigger] &left@[i])
                && left@[i].raw().flag.counts() by {
                assert(before.holds(&rest[i]));
                lemma_counted(left@, i);
                assert(device.holds(&rest[i]));
            }
            assert forall|end: CPU<T>| #[trigger] given_up(*device, left@, end) implies given_up(
                start,
                all,
                end,
            ) by {
                assert(device.dropped(&before, &rest.last(), gone));
                assert(given_up(before, rest, end));
            }
        }
    }
    proof {
        assert(handles_of(left@) =~= Multiset::<u64>::empty());
        assert(others.add(handles_of(left@)) =~= others);
        assert(given_up(*device, left@, *device));
    }
}

/// Gives up the buffers `bufs`, the last of them first, on a device that
/// shows what `seen` shows.
fn bail<T: Number>(
    device: &mut CPU<T>,
    bufs: Vec<Buffer<T>>,
    Ghost(grads): Ghost<Map<u64, CacheEntry>>,
    Ghost(others): Ghost<Multiset<u64>>,
    Ghost(seen): Ghost<CPU<T>>,
)
    requires
        old(device).wf(),
        old(device).same_as(&seen),
        sound(seen, grads),
        balanced(seen, grads, others.add(handles_of(bufs@))),
        bufs@.len() > 0,
        forall|i: int|
            0 <= i < bufs@.len() ==> seen.holds(#[trigger] &bufs@[i])
                && bufs@[i].raw().flag.counts(),
    ensures
        final(device).wf(),
        sound(*final(device), grads),
        balanced(*final(device), grads, others),
        given_up(seen, bufs@, *final(device)),
        final(device).slots() == seen.slots(),
        final(device).nodes() == seen.nodes(),
{
    let ghost start = *device;
    proof {
        assert(sound(start, grads));
        assert(balanced(start, grads, others.add(handles_of(bufs@))));
        assert forall|i: int| 0 <= i < bufs@.len() implies start.holds(#[trigger] &bufs@[i])
            && bufs@[i].raw().flag.counts() by {
            assert(seen.holds(&bufs@[i]));
        }
    }
    release_all(device, bufs, Ghost(grads), Ghost(others));
    proof {
        let (mid, gone) = choose|mid: CPU<T>, gone: bool| #[trigger]
            mid.dropped(&start, &bufs@.last(), gone) && given_up(
                mid,
                bufs@.drop_last(),
                *device,
            );
        assert(mid.dropped(&seen, &bufs@.last(), gone));
    }
}

/// One more buffer is one more handle.
proof fn lemma_handles_push<T>(bufs: Seq<Buffer<T>>, buf: Buffer<T>)
    ensures
        handles_of(bufs.push(buf)) == handles_of(bufs).insert(buf.raw().handle),
{
    assert(bufs.push(buf).drop_last() =~= bufs);
}

/// Each buffer is counted among the handles of the buffers it is one of.
proof fn lemma_counted<T>(bufs: Seq<Buffer<T>>, i: int)
    requires
        0 <= i < bufs.len(),
    ensures
        handles_of(bufs).count(bufs[i].raw().handle) >= 1,
    decreases bufs.len(),
{
    if i < bufs.len() - 1 {
        lemma_counted(bufs.drop_last(), i);
    }
}

/// The buffers `bufs` are in hand on the device: each of them points to an
/// allocation that is alive, and every allocation has, besides the caches
/// that keep it, a holder for each of the buffers that point to it. So they
/// can be given up, one after the other and in any order.
pub open spec fn in_hand<T: Number>(device: CPU<T>, grads: Gradients, bufs: Seq<Buffer<T>>) -> bool {
    &&& forall|i: int|
        0 <= i < bufs.len() ==> device.holds(#[trigger] &bufs[i]) && bufs[i].raw().flag.counts()
    &&& handles_of(bufs).subset_of(in_hands(device, grads@))
}

/// The buffers that a ledger was kept of are in hand.
proof fn lemma_in_hand<T: Number>(
    device: CPU<T>,
    grads: Gradients,
    others: Multiset<u64>,
    bufs: Seq<Buffer<T>>,
)
    requires
        device.wf(),
        grads.on(&device),
        balanced(device, grads@, others.add(handles_of(bufs))),
        forall|i: int|
            0 <= i < bufs.len() ==> device.holds(#[trigger] &bufs[i]) && bufs[i].raw().flag.counts(),
    ensures
        in_hand(device, grads, bufs),
{
    grads.lemma_sound(&device);
    lemma_balance_exists(device, grads@);
    lemma_balance_unique(
        device,
        grads@,
        others.add(handles_of(bufs)),
        in_hands(device, grads@),
    );
}

/// What `Gradients::get_double` has fetched for the input with the identity
/// `ids.0` and the output with the identity `ids.1`: the input `x` from the
/// cache of the device, then its gradient `x_grad` and the gradient `out_grad`
/// of the output from the gradients, each on what the request before it left.
pub open spec fn doubled<T: Number>(
    grads_after: Gradients,
    device_after: CPU<T>,
    grads: Gradients,
    device: CPU<T>,
    ids: (Ident, Ident),
    x: Buffer<T>,
    x_grad: Buffer<T>,
    out_grad: Buffer<T>,
) -> bool {
    exists|first: CPU<T>, between: Gradients, second: CPU<T>|
        {
            &&& device.grants(ids.0)
            &&& #[trigger] first.fetched(&device, ids.0, None, &x)
            &&& grads.grants(&first, ids.0)
            &&& #[trigger] between.fetched(&second, &grads, &first, ids.0, &x_grad)
            &&& between.grants(&second, ids.1)
            &&& grads_after.fetched(&device_after, &between, &second, ids.1, &out_grad)
        }
}

/// `Gradients::get_double` has failed with `error`: at the first request that
/// was refused, after giving up what it had fetched until then, the last
/// fetched first.
pub open spec fn double_failed<T: Number>(
    grads_after: Gradients,
    device_after: CPU<T>,
    grads: Gradients,
    device: CPU<T>,
    ids: (Ident, Ident),
    error: DeviceError,
) -> bool {
    ||| {
        &&& !device.grants(ids.0)
        &&& error == refusal(ids.0)
        &&& device_after.same_as(&device)
        &&& grads_after@ == grads@
    }
    ||| exists|first: CPU<T>, x: Buffer<T>|
        {
            &&& device.grants(ids.0)
            &&& #[trigger] first.fetched(&device, ids.0, None, &x)
            &&& !grads.grants(&first, ids.0)
            &&& error == refusal(ids.0)
            &&& given_up(first, seq![x], device_after)
            &&& grads_after@ == grads@
        }
    ||| exists|first: CPU<T>, x: Buffer<T>, between: Gradients, second: CPU<T>, x_grad: Buffer<T>|
        {
            &&& device.grants(ids.0)
            &&& #[trigger] first.fetched(&device, ids.0, None, &x)
            &&& grads.grants(&first, ids.0)
            &&& #[trigger] between.fetched(&second, &grads, &first, ids.0, &x_grad)
            &&& !between.grants(&second, ids.1)
            &&& error == refusal(ids.1)
            &&& given_up(second, seq![x, x_grad], device_after)
            &&& grads_after@ == between@
        }
}

impl Gradients {
    /// Fetches what the backward step of a unary operation works on: the
    /// input with the identity `ids.0` from the cache of the device, and from
    /// the gradients the gradient of the input and the gradient of the output
    /// with the identity `ids.1`, in this order. All three are held by the
    /// caller.
    ///
    /// Fails at the first request that is refused, with `InvalidLength` where
    /// it asks for no elements and with `AllocationError` otherwise, after
    /// giving up what was fetched until then.
    pub fn get_double<T: Number>(&mut self, device: &mut CPU<T>, ids: (Ident, Ident)) -> (res:
        Result<(Buffer<T>, Buffer<T>, Buffer<T>), DeviceError>)
        requires
            old(device).wf(),
            old(self).on(old(device)),
        ensures
            final(device).wf(),
            final(self).on(final(device)),
            res matches Ok(got) ==> {
                &&& doubled(
                    *final(self),
                    *final(device),
                    *old(self),
                    *old(device),
                    ids,
                    got.0,
                    got.1,
                    got.2,
                )
                &&& in_hand(*final(device), *final(self), seq![got.0, got.1, got.2])
                &&& got.1.raw().handle != got.0.raw().handle
                &&& got.2.raw().handle != got.0.raw().handle
            },
            res matches Err(e) ==> double_failed(
                *final(self),
                *final(device),
                *old(self),
                *old(device),
                ids,
                e,
            ),
    {
        let ghost g0 = *self;
        let ghost d0 = *device;
        let ghost others = in_hands(d0, g0@);
        let ghost none = Seq::<Buffer<T>>::empty();
        proof {
            g0.lemma_sound(&d0);
            lemma_balance_exists(d0, g0@);
        }
        let x = match device.get_cached(ids.0, None) {
            Ok(x) => x,
            Err(e) => {
                return Err(e);
            },
        };
        let ghost d1 = *device;
        let ghost h1 = others.insert(x.raw().handle);
        proof {
            lemma_balanced_drawn(d0, d1, g0@, others, ids.0, None, x);
            lemma_on_after_fetch(g0, d0, d1, ids.0, None, x);
            lemma_handles_push(none, x);
        }
        let x_grad = match self.get_like_raw(device, ids.0) {
            Ok(x_grad) => x_grad,
            Err(e) => {
                let ghost held = seq![x];
                proof {
                    assert(held =~= none.push(x));
                    assert(h1 =~= others.add(handles_of(held)));
                }
                let mut bufs = Vec::new();
                bufs.push(x);
                assert(bufs@ =~= held);
                bail(device, bufs, Ghost(g0@), Ghost(others), Ghost(d1));
                return Err(e);
            },
        };
        let ghost g2 = *self;
        let ghost d2 = *device;
        let ghost h2 = h1.insert(x_grad.raw().handle);
        proof {
            lemma_balanced_grad(d1, d2, g0@, h1, ids.0, x_grad);
            lemma_handles_push(none.push(x), x_grad);
        }
        let out_grad = match self.get_like_raw(device, ids.1) {
            Ok(out_grad) => out_grad,
            Err(e) => {
                let ghost held = seq![x, x_grad];
                proof {
                    assert(held =~= none.push(x).push(x_grad));
                    assert(h2 =~= others.add(handles_of(held)));
                }
                let mut bufs = Vec::new();
                bufs.push(x);
                bufs.push(x_grad);
                assert(bufs@ =~= held);
                bail(device, bufs, Ghost(g2@), Ghost(others), Ghost(d2));
                return Err(e);
            },
        };
        proof {
            let held = seq![x, x_grad, out_grad];
            lemma_balanced_grad(d2, *device, g2@, h2, ids.1, out_grad);
            lemma_handles_push(none.push(x).push(x_grad), out_grad);
            assert(held =~= none.push(x).push(x_grad).push(out_grad));
            assert(h2.insert(out_grad.raw().handle) =~= others.add(handles_of(held)));
            lemma_in_hand(*device, *self, others, held);
        }
        Ok((x, x_grad, out_grad))
    }
}

/// The allocation `grad` of a gradient is neither input's.
pub open spec fn apart_from<T>(grad: u64, lhs: &Buffer<T>, rhs: &Buffer<T>) -> bool {
    grad != lhs.raw().handle && grad != rhs.raw().handle
}

/// The two inputs with the identities `ids.0` and `ids.1` were fetched from
/// the cache of the device `device`, one after the other, and left the device
/// `second`.
pub open spec fn fetched_inputs<T: Number>(
    device: CPU<T>,
    ids: (Ident, Ident, Ident),
    lhs: Buffer<T>,
    rhs: Buffer<T>,
    second: CPU<T>,
) -> bool {
    exists|first: CPU<T>|
        {
            &&& device.grants(ids.0)
            &&& #[trigger] first.fetched(&device, ids.0, None, &lhs)
            &&& first.grants(ids.1)
            &&& second.fetched(&first, ids.1, None, &rhs)
        }
}

/// After the two inputs, the gradient of the first was fetched from the
/// gradients `grads`, and left the gradients `third_grads` on the device
/// `third`.
pub open spec fn fetched_lhs_grad<T: Number>(
    grads: Gradients,
    device: CPU<T>,
    ids: (Ident, Ident, Ident),
    lhs: Buffer<T>,
    rhs: Buffer<T>,
    lhs_grad: Buffer<T>,
    third_grads: Gradients,
    third: CPU<T>,
) -> bool {
    exists|second: CPU<T>|
        {
            &&& #[trigger] fetched_inputs(device, ids, lhs, rhs, second)
            &&& grads.grants(&second, ids.0)
            &&& third_grads.fetched(&third, &grads, &second, ids.0, &lhs_grad)
        }
}

/// After the two inputs and the gradient of the first, the gradient of the
/// second was fetched, and left the gradients `fourth_grads` on the device
/// `fourth`.
pub open spec fn fetched_rhs_grad<T: Number>(
    grads: Gradients,
    device: CPU<T>,
    ids: (Ident, Ident, Ident),
    lhs: Buffer<T>,
    rhs: Buffer<T>,
    lhs_grad: Buffer<T>,
    rhs_grad: Buffer<T>,
    fourth_grads: Gradients,
    fourth: CPU<T>,
) -> bool {
    exists|third_grads: Gradients, third: CPU<T>|
        {
            &&& #[trigger] fetched_lhs_grad(
                grads,
                device,
                ids,
                lhs,
                rhs,
                lhs_grad,
                third_grads,
                third,
            )
            &&& third_grads.grants(&third, ids.1)
            &&& fourth_grads.fetched(&fourth, &third_grads, &third, ids.1, &rhs_grad)
        }
}

/// What `Gradients::get_triple` has fetched for the inputs with the
/// identities `ids.0` and `ids.1` and the output with the identity `ids.2`:
/// the two inputs from the cache of the device, then their gradients and the
/// gradient of the output from the gradients, each on what the request before
/// it left.
pub open spec fn tripled<T: Number>(
    grads_after: Gradients,
    device_after: CPU<T>,
    grads: Gradients,
    device: CPU<T>,
    ids: (Ident, Ident, Ident),
    got: (Buffer<T>, Buffer<T>, Buffer<T>, Buffer<T>, Buffer<T>),
) -> bool {
    exists|fourth_grads: Gradients, fourth: CPU<T>|
        {
            &&& #[trigger] fetched_rhs_grad(
                grads,
                device,
                ids,
                got.0,
                got.1,
                got.2,
                got.3,
                fourth_grads,
                fourth,
            )
            &&& fourth_grads.grants(&fourth, ids.2)
            &&& grads_after.fetched(&device_after, &fourth_grads, &fourth, ids.2, &got.4)
        }
}

/// `Gradients::get_triple` has failed with `error`: at the first request that
/// was refused, after giving up what it had fetched until then, the last
/// fetched first.
pub open spec fn triple_failed<T: Number>(
    grads_after: Gradients,
    device_after: CPU<T>,
    grads: Gradients,
    device: CPU<T>,
    ids: (Ident, Ident, Ident),
    error: DeviceError,
) -> bool {
    ||| {
        &&& !device.grants(ids.0)
        &&& error == refusal(ids.0)
        &&& device_after.same_as(&device)
        &&& grads_after@ == grads@
    }
    ||| exists|first: CPU<T>, lhs: Buffer<T>|
        {
            &&& device.grants(ids.0)
            &&& #[trigger] first.fetched(&device, ids.0, None, &lhs)
            &&& !first.grants(ids.1)
            &&& error == refusal(ids.1)
            &&& given_up(first, seq![lhs], device_after)
            &&& grads_after@ == grads@
        }
    ||| exists|second: CPU<T>, lhs: Buffer<T>, rhs: Buffer<T>|
        {
            &&& #[trigger] fetched_inputs(device, ids, lhs, rhs, second)
            &&& !grads.grants(&second, ids.0)
            &&& error == refusal(ids.0)
            &&& given_up(second, seq![lhs, rhs], device_after)
            &&& grads_after@ == grads@
        }
    ||| exists|
        third_grads: Gradients,
        third: CPU<T>,
        lhs: Buffer<T>,
        rhs: Buffer<T>,
        lhs_grad: Buffer<T>,
    |
        {
            &&& #[trigger] fetched_lhs_grad(
                grads,
                device,
                ids,
                lhs,
                rhs,
                lhs_grad,
                third_grads,
                third,
            )
            &&& !third_grads.grants(&third, ids.1)
            &&& error == refusal(ids.1)
            &&& given_up(third, seq![lhs, rhs, lhs_grad], device_after)
            &&& grads_after@ == third_grads@
        }
    ||| exists|
        fourth_grads: Gradients,
        fourth: CPU<T>,
        lhs: Buffer<T>,
        rhs: Buffer<T>,
        lhs_grad: Buffer<T>,
        rhs_grad: Buffer<T>,
    |
        {
            &&& #[trigger] fetched_rhs_grad(
                grads,
                device,
                ids,
                lhs,
                rhs,
                lhs_grad,
                rhs_grad,
                fourth_grads,
                fourth,
            )
            &&& !fourth_grads.grants(&fourth, ids.2)
            &&& error == refusal(ids.2)
            &&& given_up(fourth, seq![lhs, rhs, lhs_grad, rhs_grad], device_after)
            &&& grads_after@ == fourth_grads@
        }
}

impl Gradients {
    /// Fetches what the backward step of a binary operation works on: the
    /// inputs with the identities `ids.0` and `ids.1` from the cache of the
    /// device, and from the gradients the gradients of the two inputs and the
    /// gradient of the output with the identity `ids.2`, in this order. All
    /// five are held by the caller.
    ///
    /// Fails at the first request that is refused, with `InvalidLength` where
    /// it asks for no elements and with `AllocationError` otherwise, after
    /// giving up what was fetched until then.
    #[verifier::rlimit(60)]
    pub fn get_triple<T: Number>(&mut self, device: &mut CPU<T>, ids: (Ident, Ident, Ident)) -> (res:
        Result<(Buffer<T>, Buffer<T>, Buffer<T>, Buffer<T>, Buffer<T>), DeviceError>)
        requires
            old(device).wf(),
            old(self).on(old(device)),
        ensures
            final(device).wf(),
            final(self).on(final(device)),
            res matches Ok(got) ==> {
                &&& tripled(*final(self), *final(device), *old(self), *old(device), ids, got)
                &&& in_hand(
                    *final(device),
                    *final(self),
                    seq![got.0, got.1, got.2, got.3, got.4],
                )
                &&& apart_from(got.2.raw().handle, &got.0, &got.1)
                &&& apart_from(got.3.raw().handle, &got.0, &got.1)
                &&& apart_from(got.4.raw().handle, &got.0, &got.1)
            },
            res matches Err(e) ==> triple_failed(
                *final(self),
                *final(device),
                *old(self),
                *old(device),
                ids,
                e,
            ),
    {
        let ghost g0 = *self;
        let ghost d0 = *device;
        let ghost others = in_hands(d0, g0@);
        proof {
            g0.lemma_sound(&d0);
            lemma_balance_exists(d0, g0@);
        }
        let lhs = match device.get_cached(ids.0, None) {
            Ok(lhs) => lhs,
            Err(e) => {
                return Err(e);
            },
        };
        let ghost d1 = *device;
        let ghost h1 = others.insert(lhs.raw().handle);
        proof {
            lemma_balanced_drawn(d0, d1, g0@, others, ids.0, None, lhs);
            lemma_on_after_fetch(g0, d0, d1, ids.0, None, lhs);
        }
        let rhs = match device.get_cached(ids.1, None) {
            Ok(rhs) => rhs,
            Err(e) => {
                let ghost held = seq![lhs];
                proof {
                    let none = Seq::<Buffer<T>>::empty();
                    lemma_handles_push(none, lhs);
                    assert(held =~= none.push(lhs));
                    assert(h1 =~= others.add(handles_of(held)));
                }
                let mut bufs = Vec::new();
                bufs.push(lhs);
                assert(bufs@ =~= held);
                bail(device, bufs, Ghost(g0@), Ghost(others), Ghost(d1));
                return Err(e);
            },
        };
        let ghost d2 = *device;
        let ghost h2 = h1.insert(rhs.raw().handle);
        proof {
            lemma_balanced_drawn(d1, d2, g0@, h1, ids.1, None, rhs);
            lemma_on_after_fetch(g0, d1, d2, ids.1, None, rhs);
            assert(fetched_inputs(d0, ids, lhs, rhs, d2));
        }
        let lhs_grad = match self.get_like_raw(device, ids.0) {
            Ok(lhs_grad) => lhs_grad,
            Err(e) => {
                let ghost held = seq![lhs, rhs];
                proof {
                    let none = Seq::<Buffer<T>>::empty();
                    lemma_handles_push(none, lhs);
                    lemma_handles_push(none.push(lhs), rhs);
                    assert(held =~= none.push(lhs).push(rhs));
                    assert(h2 =~= others.add(handles_of(held)));
                }
                let mut bufs = Vec::new();
                bufs.push(lhs);
                bufs.push(rhs);
                assert(bufs@ =~= held);
                bail(device, bufs, Ghost(g0@), Ghost(others), Ghost(d2));
                return Err(e);
            },
        };
        let ghost g3 = *self;
        let ghost d3 = *device;
        let ghost h3 = h2.insert(lhs_grad.raw().handle);
        proof {
            lemma_balanced_grad(d2, d3, g0@, h2, ids.0, lhs_grad);
            assert(fetched_lhs_grad(g0, d0, ids, lhs, rhs, lhs_grad, g3, d3));
        }
        let rhs_grad = match self.get_like_raw(device, ids.1) {
            Ok(rhs_grad) => rhs_grad,
            Err(e) => {
                let ghost held = seq![lhs, rhs, lhs_grad];
                proof {
                    let none = Seq::<Buffer<T>>::empty();
                    lemma_handles_push(none, lhs);
                    lemma_handles_push(none.push(lhs), rhs);
                    lemma_handles_push(none.push(lhs).push(rhs), lhs_grad);
                    assert(held =~= none.push(lhs).push(rhs).push(lhs_grad));
                    assert(h3 =~= others.add(handles_of(held)));
                }
                let mut bufs = Vec::new();
                bufs.push(lhs);
                bufs.push(rhs);
                bufs.push(lhs_grad);
                assert(bufs@ =~= held);
                bail(device, bufs, Ghost(g3@), Ghost(others), Ghost(d3));
                return Err(e);
            },
        };
        let ghost g4 = *self;
        let ghost d4 = *device;
        let ghost h4 = h3.insert(rhs_grad.raw().handle);
        proof {
            lemma_balanced_grad(d3, d4, g3@, h3, ids.1, rhs_grad);
            assert(fetched_rhs_grad(g0, d0, ids, lhs, rhs, lhs_grad, rhs_grad, g4, d4));
        }
        let out_grad = match self.get_like_raw(device, ids.2) {
            Ok(out_grad) => out_grad,
            Err(e) => {
                let ghost held = seq![lhs, rhs, lhs_grad, rhs_grad];
                proof {
                    let none = Seq::<Buffer<T>>::empty();
                    lemma_handles_push(none, lhs);
                    lemma_handles_push(none.push(lhs), rhs);
                    lemma_handles_push(none.push(lhs).push(rhs), lhs_grad);
                    lemma_handles_push(none.push(lhs).push(rhs).push(lhs_grad), rhs_grad);
                    assert(held =~= none.push(lhs).push(rhs).push(lhs_grad).push(rhs_grad));
                    assert(h4 =~= others.add(handles_of(held)));
                }
                let mut bufs = Vec::new();
                bufs.push(lhs);
                bufs.push(rhs);
                bufs.push(lhs_grad);
                bufs.push(rhs_grad);
                assert(bufs@ =~= held);
                bail(device, bufs, Ghost(g4@), Ghost(others), Ghost(d4));
                return Err(e);
            },
        };
        proof {
            let none = Seq::<Buffer<T>>::empty();
            let held = seq![lhs, rhs, lhs_grad, rhs_grad, out_grad];
            lemma_balanced_grad(d4, *device, g4@, h4, ids.2, out_grad);
            let got = (lhs, rhs, lhs_grad, rhs_grad, out_grad);
            assert(fetched_rhs_grad(g0, d0, ids, got.0, got.1, got.2, got.3, g4, d4));
            assert(self.fetched(device, &g4, &d4, ids.2, &got.4));
            assert(tripled(*self, *device, g0, d0, ids, got));
            lemma_handles_push(none, lhs);
            lemma_handles_push(none.push(lhs), rhs);
            lemma_handles_push(none.push(lhs).push(rhs), lhs_grad);
            lemma_handles_push(none.push(lhs).push(rhs).push(lhs_grad), rhs_grad);
            lemma_handles_push(none.push(lhs).push(rhs).push(lhs_grad).push(rhs_grad), out_grad);
            assert(held =~= none.push(lhs).push(rhs).push(lhs_grad).push(rhs_grad).push(out_grad));
            assert(h4.insert(out_grad.raw().handle) =~= others.add(handles_of(held)));
            lemma_in_hand(*device, *self, others, held);
        }
        Ok((lhs, rhs, lhs_grad, rhs_grad, out_grad))
    }
}

impl Gradients {
    /// Gives up the buffers `bufs`, buffers in hand on `device`, the last of
    /// them first. The gradients stay on the device.
    pub fn give_up<T: Number>(&self, device: &mut CPU<T>, bufs: Vec<Buffer<T>>)
        requires
            old(device).wf(),
            self.on(old(device)),
            in_hand(*old(device), *self, bufs@),
        ensures
            final(device).wf(),
            self.on(final(device)),
            given_up(*old(device), bufs@, *final(device)),
            final(device).slots() == old(device).slots(),
            final(device).nodes() == old(device).nodes(),
    {
        let ghost hands = in_hands(*device, self@);
        let ghost others = hands.sub(handles_of(bufs@));
        proof {
            self.lemma_sound(device);
            lemma_balance_exists(*device, self@);
            assert(hands =~= others.add(handles_of(bufs@)));
        }
        release_all(device, bufs, Ghost(self@), Ghost(others));
    }
}

impl Default for Gradients {
    fn default() -> (grads: Gradients)
        ensures
            grads.wf(),
            grads@ == Map::<u64, CacheEntry>::empty(),
    {
        Gradients::new()
    }
}

} // verus!
