use vstd::prelude::*;
use crate::autograd::gradients::{double_failed, doubled, given_up, refusal, Gradients};
use crate::autograd::tape::GradFn;
use crate::buffer::Buffer;
use crate::cache::{hit, kept};
use crate::count::Ident;
use crate::devices::cpu::CPU;
use crate::error::DeviceError;
use crate::ledger::in_hands;
use crate::number::Number;
use crate::op_traits::{accumulated_all, Device, DeviceSpec, UnaryGrad, WriteBuf};

verus! {

/// `len` ones.
pub open spec fn ones<T: Number>(len: nat) -> Seq<T> {
    Seq::new(len, |i: int| T::one_spec())
}

/// The step that seeds a backward pass: it sets the gradient that belongs to
/// the identity `ident` to ones.
pub struct Seed {
    pub ident: Ident,
}

impl<T: Number> GradFn<T> for Seed {
    open spec fn ready(&self, grads: Gradients, device: CPU<T>) -> bool {
        true
    }

    /// Where the gradient is granted it is fetched, set to ones, and the
    /// buffer it was fetched in is given up. Where it is refused nothing has
    /// changed.
    open spec fn done(
        &self,
        grads: Gradients,
        device: CPU<T>,
        grads_after: Gradients,
        device_after: CPU<T>,
        res: Result<(), DeviceError>,
    ) -> bool {
        if grads.grants(&device, self.ident) {
            res is Ok && seeded(grads_after, device_after, grads, device, self.ident)
        } else {
            &&& res == Err::<(), DeviceError>(refusal(self.ident))
            &&& device_after.same_as(&device)
            &&& grads_after@ == grads@
        }
    }

    fn grad(&self, grads: &mut Gradients, device: &mut CPU<T>) -> (res: Result<(), DeviceError>) {
        let ghost g0 = *grads;
        match grads.get_like_raw(device, self.ident) {
            Ok(seed) => {
                let ghost g1 = *grads;
                let ghost d1 = *device;
                let len = seed.len();
                let mut one: Vec<T> = Vec::new();
                let mut i: usize = 0;
                while i < len
                    invariant
                        i <= len,
                        one@ == ones::<T>(i as nat),
                    decreases len - i,
                {
                    one.push(T::one());
                    i = i + 1;
                    assert(one@ =~= ones::<T>(i as nat));
                }
                device.write(&seed, one.as_slice());
                let ghost d2 = *device;
                proof {
                    device.lemma_wf();
                    old(device).lemma_wf();
                    let h = seed.raw().handle;
                    if hit(g0@, self.ident) {
                        assert(old(device).live().contains_key(g0@[self.ident.count].handle));
                        assert(d1.live()[h].refs >= 2);
                    } else {
                        if g0@.contains_key(self.ident.count) {
                            assert(old(device).live().contains_key(
                                g0@[self.ident.count].handle,
                            ));
                        }
                        assert(d1.live()[h].refs == 2);
                    }
                    assert(device.live()[h].refs >= 2);
                    assert(g1@.contains_key(self.ident.count));
                    assert(!kept(device.slots(), h)) by {
                        if kept(device.slots(), h) {
                            let c = choose|c: u64| #[trigger]
                                device.slots().contains_key(c) && device.slots()[c].handle == h;
                            assert(g1@[self.ident.count].handle != device.slots()[c].handle);
                        }
                    }
                }
                let ghost seed_copy = seed;
                let gone = device.release(seed);
                proof {
                    assert(g1.fetched(&d1, &g0, old(device), self.ident, &seed_copy));
                    assert(d2.stored(&d1, &seed_copy, ones::<T>(seed_copy.raw().len as nat)));
                    assert(!gone);
                    assert(seeded(g1, *device, g0, *old(device), self.ident));
                }
                Ok(())
            },
            Err(e) => Err(e),
        }
    }
}

/// `grads` and `device` are what a backward pass starts from when it is
/// seeded for the identity `ident` on the gradients `before` and the device
/// `before_dev`: the gradient of `ident` was fetched, its elements were set to
/// ones, and the buffer it was fetched in was given up.
pub open spec fn seeded<T: Number>(
    grads: Gradients,
    device: CPU<T>,
    before: Gradients,
    before_dev: CPU<T>,
    ident: Ident,
) -> bool {
    exists|mid: CPU<T>, set: CPU<T>, seed: Buffer<T>|
        {
            &&& #[trigger] grads.fetched(&mid, &before, &before_dev, ident, &seed)
            &&& #[trigger] set.stored(&mid, &seed, ones::<T>(seed.raw().len as nat))
            &&& device.wf()
            &&& device.dropped(&set, &seed, false)
        }
}

/// The backward step of a unary operation: it adds to the gradient of the
/// input, the buffer with the identity `ids.0`, what the gradient of the
/// output, the buffer with the identity `ids.1`, contributes through the
/// derivative `grad_fn` of the operation.
pub struct UnaryGradFn<GO> {
    pub ids: (Ident, Ident),
    pub grad_fn: GO,
}

/// What the backward step of a unary operation with the derivative `grad_fn`
/// makes of the gradients `grads` and the device `device`, where it gets its
/// buffers: it fetches the input, its gradient and the gradient of the
/// output as `Gradients::get_double` does, adds to the gradient of the input
/// as `UnaryGrad::add_unary_grad` does, and gives the three buffers up again,
/// the last fetched first.
pub open spec fn unary_grad_ran<T: Number, GO: Fn(T) -> T>(
    grad_fn: GO,
    ids: (Ident, Ident),
    grads: Gradients,
    device: CPU<T>,
    grads_after: Gradients,
    device_after: CPU<T>,
) -> bool {
    exists|
        x: Buffer<T>,
        x_grad: Buffer<T>,
        out_grad: Buffer<T>,
        fetched: CPU<T>,
        added: CPU<T>,
    |
        {
            &&& #[trigger] doubled(grads_after, fetched, grads, device, ids, x, x_grad, out_grad)
            &&& #[trigger] added.stored(&fetched, &x_grad, added.contents(&x_grad))
            &&& accumulated_all(
                grad_fn,
                fetched.contents(&x),
                fetched.contents(&x_grad),
                fetched.contents(&out_grad),
                added.contents(&x_grad),
            )
            &&& given_up(added, seq![x, x_grad, out_grad], device_after)
        }
}

impl<T: Number, GO: Fn(T) -> T + Copy> GradFn<T> for UnaryGradFn<GO> {
    /// The derivative can be called on every element.
    open spec fn ready(&self, grads: Gradients, device: CPU<T>) -> bool {
        forall|x: T| call_requires(self.grad_fn, (x,))
    }

    open spec fn done(
        &self,
        grads: Gradients,
        device: CPU<T>,
        grads_after: Gradients,
        device_after: CPU<T>,
        res: Result<(), DeviceError>,
    ) -> bool {
        match res {
            Ok(_) => unary_grad_ran(
                self.grad_fn,
                self.ids,
                grads,
                device,
                grads_after,
                device_after,
            ),
            Err(e) => double_failed(grads_after, device_after, grads, device, self.ids, e),
        }
    }

    fn grad(&self, grads: &mut Gradients, device: &mut CPU<T>) -> (res: Result<(), DeviceError>) {
        let (x, x_grad, out_grad) = match grads.get_double(device, self.ids) {
            Ok(got) => got,
            Err(e) => {
                return Err(e);
            },
        };
        let ghost fetched = *device;
        let ghost held = seq![x, x_grad, out_grad];
        proof {
            assert(fetched.holds(&held[0]));
            assert(fetched.holds(&held[1]));
            assert(fetched.holds(&held[2]));
        }
        device.add_unary_grad(&x, &x_grad, &out_grad, self.grad_fn);
        let ghost added = *device;
        proof {
            assert forall|i: int| 0 <= i < held.len() implies added.holds(#[trigger] &held[i])
                && held[i].raw().flag.counts() by {
                assert(fetched.holds(&held[i]));
            }
            assert(in_hands(added, grads@) =~= in_hands(fetched, grads@));
        }
        let mut bufs = Vec::new();
        bufs.push(x);
        bufs.push(x_grad);
        bufs.push(out_grad);
        assert(bufs@ =~= held);
        grads.give_up(device, bufs);
        proof {
            assert(unary_grad_ran(
                self.grad_fn,
                self.ids,
                *old(grads),
                *old(device),
                *grads,
                *device,
            ));
        }
        Ok(())
    }
}

} // verus!
