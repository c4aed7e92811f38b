use vstd::prelude::*;
use crate::autograd::gradients::{refusal, Gradients};
use crate::autograd::steps::{seeded, Seed, UnaryGradFn};
use crate::autograd::gradients::lemma_on_after_fetch;
use crate::buffer::Buffer;
use crate::cache::CacheEntry;
use crate::count::{Counter, Ident};
use crate::devices::cpu::CPU;
use crate::error::DeviceError;
use crate::number::Number;
use crate::op_traits::{deps_of, ApplyFunction, Device, DeviceSpec};

verus! {

/// One step of a backward pass: a function from the gradients and the device
/// to the gradients and the device. It takes its buffers from the gradients
/// and the device by their identities, and keeps none.
pub trait GradFn<T: Number> {
    /// What the step asks of the state it is run in, beyond that the
    /// gradients are on the device: nothing, unless the step says otherwise.
    open spec fn ready(&self, grads: Gradients, device: CPU<T>) -> bool {
        true
    }

    /// What the step makes of the state `grads`, `device`: anything, unless
    /// the step says more.
    open spec fn done(
        &self,
        grads: Gradients,
        device: CPU<T>,
        grads_after: Gradients,
        device_after: CPU<T>,
        res: Result<(), DeviceError>,
    ) -> bool {
        true
    }

    /// Runs the step.
    fn grad(&self, grads: &mut Gradients, device: &mut CPU<T>) -> (res: Result<(), DeviceError>)
        requires
            old(device).wf(),
            old(grads).on(old(device)),
            self.ready(*old(grads), *old(device)),
        ensures
            final(device).wf(),
            final(grads).on(final(device)),
            self.done(*old(grads), *old(device), *final(grads), *final(device), res),
    ;
}

/// The steps `fns` were run from the state `grads`, `device`, the last of them
/// first, each on what the one before it left, and ended in `grads_after`,
/// `device_after` with `res`. A step that fails ends the pass: those before
/// it in `fns` are not run.
pub open spec fn ran_back<T: Number, F: GradFn<T>>(
    fns: Seq<F>,
    grads: Gradients,
    device: CPU<T>,
    grads_after: Gradients,
    device_after: CPU<T>,
    res: Result<(), DeviceError>,
) -> bool
    decreases fns.len(),
{
    if fns.len() == 0 {
        res == Ok::<(), DeviceError>(()) && grads_after == grads && device_after == device
    } else {
        exists|g: Gradients, d: CPU<T>, r: Result<(), DeviceError>|
            #[trigger] fns.last().done(grads, device, g, d, r) && (if r is Ok {
                ran_back(fns.drop_last(), g, d, grads_after, device_after, res)
            } else {
                res == r && grads_after == g && device_after == d
            })
    }
}

/// Steps run in the reverse of the order in which they were recorded: where
/// `a`, `b` and `c` were recorded in this order and the backward pass went
/// through, `c` ran on the state the pass began in, `b` on what `c` left, and
/// `a` on what `b` left, which is where the pass ended.
pub proof fn lemma_backward_reverses<T: Number, F: GradFn<T>>(
    a: F,
    b: F,
    c: F,
    grads: Gradients,
    device: CPU<T>,
    grads_after: Gradients,
    device_after: CPU<T>,
)
    requires
        ran_back(
            seq![a, b, c],
            grads,
            device,
            grads_after,
            device_after,
            Ok::<(), DeviceError>(()),
        ),
    ensures
        exists|g1: Gradients, d1: CPU<T>, g2: Gradients, d2: CPU<T>|
            {
                &&& #[trigger] c.done(grads, device, g1, d1, Ok::<(), DeviceError>(()))
                &&& #[trigger] b.done(g1, d1, g2, d2, Ok::<(), DeviceError>(()))
                &&& a.done(g2, d2, grads_after, device_after, Ok::<(), DeviceError>(()))
            },
{
    let ok = Ok::<(), DeviceError>(());
    let all = seq![a, b, c];
    assert(all.last() == c);
    assert(all.drop_last() =~= seq![a, b]);
    let (g1, d1, r1) = choose|g: Gradients, d: CPU<T>, r: Result<(), DeviceError>|
        #[trigger] all.last().done(grads, device, g, d, r) && (if r is Ok {
            ran_back(all.drop_last(), g, d, grads_after, device_after, ok)
        } else {
            ok == r && grads_after == g && device_after == d
        });
    assert(r1 is Ok);
    assert(r1->Ok_0 == ());
    assert(r1 == ok);
    let two = seq![a, b];
    assert(two.last() == b);
    assert(two.drop_last() =~= seq![a]);
    let (g2, d2, r2) = choose|g: Gradients, d: CPU<T>, r: Result<(), DeviceError>|
        #[trigger] two.last().done(g1, d1, g, d, r) && (if r is Ok {
            ran_back(two.drop_last(), g, d, grads_after, device_after, ok)
        } else {
            ok == r && grads_after == g && device_after == d
        });
    assert(r2 is Ok);
    assert(r2->Ok_0 == ());
    assert(r2 == ok);
    let one = seq![a];
    assert(one.last() == a);
    assert(one.drop_last() =~= Seq::<F>::empty());
    let (g3, d3, r3) = choose|g: Gradients, d: CPU<T>, r: Result<(), DeviceError>|
        #[trigger] one.last().done(g2, d2, g, d, r) && (if r is Ok {
            ran_back(one.drop_last(), g, d, grads_after, device_after, ok)
        } else {
            ok == r && grads_after == g && device_after == d
        });
    assert(r3 is Ok);
    assert(r3->Ok_0 == ());
    assert(r3 == ok);
    assert(ran_back(Seq::<F>::empty(), g3, d3, grads_after, device_after, ok));
    assert(c.done(grads, device, g1, d1, ok));
    assert(b.done(g1, d1, g2, d2, ok));
    assert(a.done(g2, d2, grads_after, device_after, ok));
}

/// Every step can be run in every state.
pub open spec fn all_ready<T: Number, F: GradFn<T>>(fns: Seq<F>) -> bool {
    forall|i: int, g: Gradients, d: CPU<T>|
        0 <= i < fns.len() && d.wf() && g.on(&d) ==> #[trigger] fns[i].ready(g, d)
}

/// The steps of a backward pass in the order in which the forward pass
/// recorded them, and the gradients they work on.
pub struct Tape<F> {
    grads: Gradients,
    grad_fns: Vec<F>,
}

impl<F> Tape<F> {
    /// The recorded steps, oldest first.
    pub closed spec fn steps(&self) -> Seq<F> {
        self.grad_fns@
    }

    /// The gradients.
    pub closed spec fn gradients(&self) -> Gradients {
        self.grads
    }

    /// A tape without steps and without gradients.
    pub fn new() -> (tape: Tape<F>)
        ensures
            tape.steps() == Seq::<F>::empty(),
            tape.gradients().wf(),
            tape.gradients()@ == Map::<u64, CacheEntry>::empty(),
    {
        Tape { grads: Gradients::new(), grad_fns: Vec::new() }
    }

    /// Number of recorded steps.
    pub fn len(&self) -> (n: usize)
        ensures
            n == self.steps().len(),
    {
        self.grad_fns.len()
    }

    /// The gradients.
    pub fn grads(&self) -> (grads: &Gradients)
        ensures
            *grads == self.gradients(),
    {
        &self.grads
    }

    /// Records `grad_fn` as the step to be run before those recorded so far.
    pub fn add_grad_fn(&mut self, grad_fn: F)
        ensures
            final(self).steps() == old(self).steps().push(grad_fn),
            final(self).gradients() == old(self).gradients(),
    {
        self.grad_fns.push(grad_fn);
    }
}

impl<F> Tape<F> {
    /// Runs the recorded steps, the last recorded first, each on the
    /// gradients and the device as the one before it left them, and leaves
    /// the tape without steps. Without steps nothing is done.
    ///
    /// A step that fails ends the pass with its error; the steps recorded
    /// before it are dropped without being run.
    pub fn backward<T: Number>(&mut self, device: &mut CPU<T>) -> (res: Result<
        (),
        DeviceError,
    >) where F: GradFn<T>
        requires
            old(device).wf(),
            old(self).gradients().on(old(device)),
            all_ready(old(self).steps()),
        ensures
            final(device).wf(),
            final(self).gradients().on(final(device)),
            final(self).steps() == Seq::<F>::empty(),
            ran_back(
                old(self).steps(),
                old(self).gradients(),
                *old(device),
                final(self).gradients(),
                *final(device),
                res,
            ),
    {
        let ghost all = self.grad_fns@;
        let ghost g0 = self.grads;
        let ghost d0 = *device;
        while self.grad_fns.len() > 0
            invariant
                all == old(self).steps(),
                g0 == old(self).gradients(),
                d0 == *old(device),
                device.wf(),
                self.grads.on(device),
                all_ready(self.grad_fns@),
                forall|g: Gradients, d: CPU<T>, r: Result<(), DeviceError>| #[trigger]
                    ran_back(self.grad_fns@, self.grads, *device, g, d, r) ==> ran_back(
                        all,
                        g0,
                        d0,
                        g,
                        d,
                        r,
                    ),
            decreases self.grad_fns@.len(),
        {
            let ghost rest = self.grad_fns@;
            let ghost g1 = self.grads;
            let ghost d1 = *device;
            let step = self.grad_fns.pop();
            let step = step.unwrap();
            assert(step == rest.last());
            assert(self.grad_fns@ =~= rest.drop_last());
            assert(step.ready(g1, d1)) by {
                assert(rest[rest.len() - 1].ready(g1, d1));
            }
            let res = step.grad(&mut self.grads, device);
            let ghost g2 = self.grads;
            let ghost d2 = *device;
            proof {
                assert forall|i: int, g: Gradients, d: CPU<T>|
                    0 <= i < self.grad_fns@.len() && d.wf() && g.on(&d) implies #[trigger] self.grad_fns@[i].ready(
                    g,
                    d,
                ) by {
                    assert(rest[i].ready(g, d));
                }
            }
            match res {
                Ok(()) => {
                    proof {
                        assert forall|g: Gradients, d: CPU<T>, r: Result<(), DeviceError>| #[trigger]
                            ran_back(self.grad_fns@, g2, d2, g, d, r) implies ran_back(
                            all,
                            g0,
                            d0,
                            g,
                            d,
                            r,
                        ) by {
                            assert(rest.last().done(g1, d1, g2, d2, res));
                            assert(ran_back(rest, g1, d1, g, d, r));
                        }
                    }
                },
                Err(e) => {
                    proof {
                        assert(rest.last().done(g1, d1, g2, d2, res));
                        assert(ran_back(rest, g1, d1, g2, d2, res));
                    }
                    self.grad_fns.clear();
                    return Err(e);
                },
            }
        }
        proof {
            assert(self.grad_fns@ =~= Seq::<F>::empty());
            assert(ran_back(
                self.grad_fns@,
                self.grads,
                *device,
                self.grads,
                *device,
                Ok::<(), DeviceError>(()),
            ));
        }
        Ok(())
    }

    /// Sets the gradient of `buf`, the output of the forward pass and a
    /// buffer that was drawn from a cache, to ones, as `Seed` does, and runs
    /// the recorded steps as `backward` does.
    ///
    /// Fails with the error of `Seed`, before any step is run and with the
    /// steps still recorded, where the device refuses the gradient of `buf`;
    /// and with the error of the step that failed.
    pub fn backward_seeded<T: Number>(&mut self, device: &mut CPU<T>, buf: &Buffer<T>) -> (res:
        Result<(), DeviceError>) where F: GradFn<T>
        requires
            old(device).wf(),
            old(self).gradients().on(old(device)),
            all_ready(old(self).steps()),
            buf.slot() is Some,
        ensures
            final(device).wf(),
            final(self).gradients().on(final(device)),
            !old(self).gradients().grants(old(device), buf.slot()->0) ==> {
                &&& res == Err::<(), DeviceError>(refusal(buf.slot()->0))
                &&& final(self).steps() == old(self).steps()
                &&& final(self).gradients()@ == old(self).gradients()@
                &&& final(device).same_as(old(device))
            },
            old(self).gradients().grants(old(device), buf.slot()->0) ==> {
                &&& final(self).steps() == Seq::<F>::empty()
                &&& exists|g: Gradients, d: CPU<T>|
                    {
                        &&& #[trigger] seeded(
                            g,
                            d,
                            old(self).gradients(),
                            *old(device),
                            buf.slot()->0,
                        )
                        &&& ran_back(
                            old(self).steps(),
                            g,
                            d,
                            final(self).gradients(),
                            *final(device),
                            res,
                        )
                    }
            },
    {
        let seed = Seed { ident: buf.ident().unwrap() };
        match seed.grad(&mut self.grads, device) {
            Ok(()) => {
                proof {
                    assert(seeded(
                        self.grads,
                        *device,
                        old(self).gradients(),
                        *old(device),
                        buf.slot()->0,
                    ));
                }
                self.backward(device)
            },
            Err(e) => Err(e),
        }
    }
}

impl<F> Tape<F> {
    /// The buffer of the gradient that belongs to `buf`, a buffer that was
    /// drawn from a cache: see `Gradients::get_like`.
    pub fn get_grad<T: Number>(&mut self, device: &mut CPU<T>, buf: &Buffer<T>) -> (res: Result<
        Buffer<T>,
        DeviceError,
    >)
        requires
            old(device).wf(),
            old(self).gradients().on(old(device)),
            buf.slot() is Some,
        ensures
            final(device).wf(),
            final(self).gradients().on(final(device)),
            final(self).steps() == old(self).steps(),
            res.is_ok() <==> old(self).gradients().grants(old(device), buf.slot()->0),
            res matches Err(e) ==> {
                &&& e == refusal(buf.slot()->0)
                &&& final(device).same_as(old(device))
                &&& final(self).gradients()@ == old(self).gradients()@
            },
            res matches Ok(grad) ==> final(self).gradients().fetched(
                final(device),
                &old(self).gradients(),
                old(device),
                buf.slot()->0,
                &grad,
            ) && final(device).holds(&grad),
    {
        self.grads.get_like(device, buf)
    }
}

impl<GO> Tape<UnaryGradFn<GO>> {
    /// The buffer of the results of `forward_fn` on the elements of `buf`, as
    /// `ApplyFunction::apply_fn` hands it out, with the backward step of the
    /// operation recorded: the step that adds to the gradient of `buf`
    /// through `grad_fn`, the derivative of `forward_fn`.
    ///
    /// The step knows its buffers by identity, so `buf` has to have one: it
    /// was drawn from a cache, by `CacheBuf::cached`, `CPU::cached_with` or
    /// an operation. Where the device refuses the output, nothing is
    /// recorded.
    pub fn unary_ew<T: Number, FO: Fn(T) -> T>(
        &mut self,
        device: &mut CPU<T>,
        counter: &mut Counter,
        buf: &Buffer<T>,
        forward_fn: FO,
        grad_fn: GO,
    ) -> (res: Result<Buffer<T>, DeviceError>) where GO: Fn(T) -> T + Copy
        requires
            old(device).wf(),
            old(device).holds(buf),
            old(self).gradients().on(old(device)),
            old(counter)@ < u64::MAX,
            buf.slot() is Some,
            forall|x: T| call_requires(forward_fn, (x,)),
            forall|x: T| call_requires(grad_fn, (x,)),
        ensures
            final(device).wf(),
            final(self).gradients() == old(self).gradients(),
            final(self).gradients().on(final(device)),
            all_ready::<T, UnaryGradFn<GO>>(old(self).steps()) ==> all_ready::<
                T,
                UnaryGradFn<GO>,
            >(final(self).steps()),
            res.is_ok() <==> old(device).grants(
                Ident { count: old(counter)@, len: buf.raw().len },
            ),
            res matches Err(e) ==> {
                &&& e == DeviceError::AllocationError
                &&& final(device).same_as(old(device))
                &&& final(counter)@ == old(counter)@
                &&& final(self).steps() == old(self).steps()
            },
            res matches Ok(out) ==> {
                &&& final(device).emitted(
                    old(device),
                    Ident { count: old(counter)@, len: buf.raw().len },
                    Some(deps_of(buf, None)),
                    &out,
                )
                &&& final(device).holds(&out)
                &&& final(counter)@ == old(counter)@ + 1
                &&& forall|i: int|
                    0 <= i < buf.raw().len ==> call_ensures(
                        forward_fn,
                        (old(device).contents(buf)[i],),
                        #[trigger] final(device).contents(&out)[i],
                    )
                &&& final(self).steps() == old(self).steps().push(
                    UnaryGradFn {
                        ids: (buf.slot()->0, Ident { count: old(counter)@, len: buf.raw().len }),
                        grad_fn,
                    },
                )
            },
    {
        let out = match device.apply_fn(counter, buf, forward_fn) {
            Ok(out) => out,
            Err(e) => {
                return Err(e);
            },
        };
        let step = UnaryGradFn { ids: (buf.ident().unwrap(), out.ident().unwrap()), grad_fn };
        self.grad_fns.push(step);
        proof {
            lemma_on_after_fetch(
                self.grads,
                *old(device),
                *device,
                Ident { count: old(counter)@, len: buf.raw().len },
                Some(deps_of(buf, None)),
                out,
            );
            if all_ready::<T, UnaryGradFn<GO>>(old(self).steps()) {
                assert forall|i: int, g: Gradients, d: CPU<T>|
                    0 <= i < self.grad_fns@.len() && d.wf() && g.on(&d) implies #[trigger] self.grad_fns@[i].ready(
                    g,
                    d,
                ) by {
                    if i < old(self).grad_fns@.len() {
                        assert(old(self).grad_fns@[i].ready(g, d));
                    }
                }
            }
        }
        Ok(out)
    }
}

impl<F> Default for Tape<F> {
    fn default() -> (tape: Tape<F>)
        ensures
            tape.steps() == Seq::<F>::empty(),
            tape.gradients().wf(),
            tape.gradients()@ == Map::<u64, CacheEntry>::empty(),
    {
        Tape::new()
    }
}

} // verus!
