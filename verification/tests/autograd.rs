use std::cell::RefCell;
use std::rc::Rc;

use custos::{
    CacheBuf, Counter, DeviceError, GradFn, Gradients, Ident, Read, Seed, Tape, UnaryGradFn,
    WriteBuf, CPU,
};

struct Logged {
    name: char,
    log: Rc<RefCell<Vec<char>>>,
    fails: bool,
}

impl GradFn<i32> for Logged {
    fn grad(&self, _grads: &mut Gradients, _device: &mut CPU<i32>) -> Result<(), DeviceError> {
        self.log.borrow_mut().push(self.name);
        if self.fails {
            Err(DeviceError::AllocationError)
        } else {
            Ok(())
        }
    }
}

fn step(name: char, log: &Rc<RefCell<Vec<char>>>) -> Logged {
    Logged { name, log: log.clone(), fails: false }
}

#[test]
fn backward_runs_in_reverse_order() {
    let log = Rc::new(RefCell::new(Vec::new()));
    let mut device: CPU<i32> = CPU::new();
    let mut tape: Tape<Logged> = Tape::new();
    tape.add_grad_fn(step('A', &log));
    tape.add_grad_fn(step('B', &log));
    tape.add_grad_fn(step('C', &log));
    assert_eq!(tape.len(), 3);

    assert_eq!(tape.backward(&mut device), Ok(()));

    assert_eq!(*log.borrow(), vec!['C', 'B', 'A']);
    assert_eq!(tape.len(), 0);
}

#[test]
fn backward_without_steps_does_nothing() {
    let mut device: CPU<i32> = CPU::new();
    let mut tape: Tape<Logged> = Tape::new();
    assert_eq!(tape.backward(&mut device), Ok(()));
    assert_eq!(tape.len(), 0);
    assert_eq!(device.allocations(), 0);
}

#[test]
fn backward_drains_the_tape_once() {
    let log = Rc::new(RefCell::new(Vec::new()));
    let mut device: CPU<i32> = CPU::new();
    let mut tape: Tape<Logged> = Tape::new();
    tape.add_grad_fn(step('A', &log));
    assert_eq!(tape.backward(&mut device), Ok(()));
    assert_eq!(tape.backward(&mut device), Ok(()));
    assert_eq!(*log.borrow(), vec!['A']);
}

#[test]
fn backward_stops_at_the_step_that_fails() {
    let log = Rc::new(RefCell::new(Vec::new()));
    let mut device: CPU<i32> = CPU::new();
    let mut tape: Tape<Logged> = Tape::new();
    tape.add_grad_fn(step('A', &log));
    tape.add_grad_fn(Logged { name: 'B', log: log.clone(), fails: true });
    tape.add_grad_fn(step('C', &log));

    assert_eq!(tape.backward(&mut device), Err(DeviceError::AllocationError));

    assert_eq!(*log.borrow(), vec!['C', 'B']);
    assert_eq!(tape.len(), 0);
}

struct Noop;

impl GradFn<i32> for Noop {
    fn grad(&self, _grads: &mut Gradients, _device: &mut CPU<i32>) -> Result<(), DeviceError> {
        Ok(())
    }
}

#[test]
fn gradients_are_cached_by_identity() {
    let mut device: CPU<i32> = CPU::new();
    let mut counter = Counter::new();
    let x = device.cached(&mut counter, 3).unwrap();
    let made = device.allocations();

    let mut grads = Gradients::new();
    let grad = grads.get_like(&mut device, &x).unwrap();
    assert_ne!(grad.handle(), x.handle());
    assert_eq!(grad.len(), 3);
    assert_eq!(grad.node(), None);
    assert_eq!(device.read(&grad), [0, 0, 0]);
    assert_eq!(device.allocations(), made + 1);
    assert_eq!(device.graph().len(), 1);
    device.write(&grad, &[1, 2, 3]);

    let again = grads.get_like_raw(&mut device, x.ident().unwrap()).unwrap();
    assert_eq!(again.handle(), grad.handle());
    assert_eq!(device.read(&again), [1, 2, 3]);
    assert_eq!(device.allocations(), made + 1);
    assert_eq!(grads.len(), 1);
    assert_eq!(device.cache_len(), 1);
}

#[test]
fn backward_seeded_sets_the_output_gradient_to_ones() {
    let mut device: CPU<i32> = CPU::new();
    let mut counter = Counter::new();
    let out = device.cached(&mut counter, 4).unwrap();

    let mut tape: Tape<Noop> = Tape::new();
    tape.add_grad_fn(Noop);
    assert_eq!(tape.backward_seeded(&mut device, &out), Ok(()));
    assert_eq!(tape.len(), 0);
    assert_eq!(tape.grads().len(), 1);

    let mut grads = Gradients::default();
    let fresh = grads.get_like(&mut device, &out).unwrap();
    assert_eq!(device.read(&fresh), [0, 0, 0, 0]);
}

struct ReadSeed {
    ident: Ident,
    seen: Rc<RefCell<Vec<i32>>>,
}

impl GradFn<i32> for ReadSeed {
    fn grad(&self, grads: &mut Gradients, device: &mut CPU<i32>) -> Result<(), DeviceError> {
        let seed = grads.get_like_raw(device, self.ident)?;
        self.seen.borrow_mut().extend_from_slice(device.read(&seed));
        device.release(seed);
        Ok(())
    }
}

#[test]
fn backward_seeded_seeds_before_the_steps_run() {

    let mut device: CPU<i32> = CPU::new();
    let mut counter = Counter::new();
    let out = device.cached(&mut counter, 3).unwrap();
    let seen = Rc::new(RefCell::new(Vec::new()));

    let mut tape: Tape<ReadSeed> = Tape::default();
    tape.add_grad_fn(ReadSeed { ident: out.ident().unwrap(), seen: seen.clone() });
    assert_eq!(tape.backward_seeded(&mut device, &out), Ok(()));
    assert_eq!(*seen.borrow(), vec![1, 1, 1]);
}

fn square(v: i32) -> i32 {
    v * v
}

fn twice(v: i32) -> i32 {
    2 * v
}

#[test]
fn a_unary_operation_is_differentiated() {
    let mut device: CPU<i32> = CPU::new();
    let mut counter = Counter::new();
    let x = device.cached(&mut counter, 3).unwrap();
    device.write(&x, &[1, 2, 3]);

    let mut tape: Tape<UnaryGradFn<fn(i32) -> i32>> = Tape::new();
    let out = tape
        .unary_ew(&mut device, &mut counter, &x, square, twice as fn(i32) -> i32)
        .unwrap();
    assert_eq!(device.read(&out), [1, 4, 9]);
    assert_eq!(tape.len(), 1);
    let made = device.allocations();

    assert_eq!(tape.backward_seeded(&mut device, &out), Ok(()));
    assert_eq!(tape.len(), 0);
    assert_eq!(device.allocations(), made + 2);

    let x_grad = tape.get_grad(&mut device, &x).unwrap();
    assert_eq!(device.read(&x_grad), [2, 4, 6]);
    let out_grad = tape.get_grad(&mut device, &out).unwrap();
    assert_eq!(device.read(&out_grad), [1, 1, 1]);
    assert_eq!(device.read(&x), [1, 2, 3]);
    assert_eq!(device.allocations(), made + 2);
    assert_eq!(tape.grads().len(), 2);
}

#[test]
fn gradients_add_up_over_backward_passes() {
    let mut device: CPU<i32> = CPU::new();
    let mut counter = Counter::new();
    let x = device.cached(&mut counter, 2).unwrap();
    device.write(&x, &[3, 5]);
    let mut tape: Tape<UnaryGradFn<fn(i32) -> i32>> = Tape::new();

    for pass in 1..4 {
        counter.reset_counter(1);
        let out = tape
            .unary_ew(&mut device, &mut counter, &x, square, twice as fn(i32) -> i32)
            .unwrap();
        assert_eq!(tape.backward_seeded(&mut device, &out), Ok(()));
        let x_grad = tape.get_grad(&mut device, &x).unwrap();
        assert_eq!(device.read(&x_grad), [6 * pass, 10 * pass]);
        assert!(!device.release(x_grad));
        assert!(!device.release(out));
    }
    assert_eq!(device.allocations(), 4);
    assert_eq!(device.live_allocations(), 4);
}

#[test]
fn get_double_fetches_input_and_gradients() {
    let mut device: CPU<i32> = CPU::new();
    let mut counter = Counter::new();
    let x = device.cached(&mut counter, 2).unwrap();
    let out = device.cached(&mut counter, 2).unwrap();
    device.write(&x, &[7, 8]);
    let ids = (x.ident().unwrap(), out.ident().unwrap());

    let mut grads = Gradients::new();
    let (x_again, x_grad, out_grad) = grads.get_double(&mut device, ids).unwrap();
    assert_eq!(x_again.handle(), x.handle());
    assert_eq!(device.read(&x_again), [7, 8]);
    assert_ne!(x_grad.handle(), x.handle());
    assert_ne!(out_grad.handle(), x_grad.handle());
    assert_ne!(out_grad.handle(), out.handle());
    assert_eq!(device.read(&x_grad), [0, 0]);
    assert_eq!(device.read(&out_grad), [0, 0]);
    assert_eq!(grads.len(), 2);
    assert_eq!(device.info(&x).map(|i| i.refs), Some(3));
    assert_eq!(device.info(&x_grad).map(|i| i.refs), Some(2));

    assert_eq!(
        grads.get_double(&mut device, (ids.0, Ident { count: 9, len: 0 })).err(),
        Some(DeviceError::InvalidLength)
    );
    assert_eq!(device.info(&x).map(|i| i.refs), Some(3));
    assert_eq!(device.info(&x_grad).map(|i| i.refs), Some(2));
    assert_eq!(grads.len(), 2);
}

#[test]
fn the_unary_step_gives_its_buffers_up_again() {
    let mut device: CPU<i32> = CPU::new();
    let mut counter = Counter::new();
    let x = device.cached(&mut counter, 2).unwrap();
    let out = device.cached(&mut counter, 2).unwrap();
    device.write(&x, &[1, 2]);
    let mut grads = Gradients::new();
    let seed = grads.get_like(&mut device, &out).unwrap();
    device.write(&seed, &[10, 100]);

    let step = UnaryGradFn {
        ids: (x.ident().unwrap(), out.ident().unwrap()),
        grad_fn: twice as fn(i32) -> i32,
    };
    assert_eq!(step.grad(&mut grads, &mut device), Ok(()));
    assert_eq!(device.info(&x).map(|i| i.refs), Some(2));
    assert_eq!(device.info(&seed).map(|i| i.refs), Some(2));

    let x_grad = grads.get_like(&mut device, &x).unwrap();
    assert_eq!(device.read(&x_grad), [20, 400]);
    assert_eq!(device.info(&x_grad).map(|i| i.refs), Some(2));

    let none = UnaryGradFn {
        ids: (Ident { count: 0, len: 0 }, out.ident().unwrap()),
        grad_fn: twice as fn(i32) -> i32,
    };
    assert_eq!(none.grad(&mut grads, &mut device), Err(DeviceError::InvalidLength));
}

#[test]
fn the_seed_step_sets_ones() {
    let mut device: CPU<u8> = CPU::new();
    let mut grads = Gradients::new();
    let ident = Ident { count: 4, len: 3 };
    assert_eq!(GradFn::<u8>::grad(&Seed { ident }, &mut grads, &mut device), Ok(()));
    let seed = grads.get_like_raw(&mut device, ident).unwrap();
    assert_eq!(device.read(&seed), [1, 1, 1]);
    assert_eq!(device.info(&seed).map(|i| i.refs), Some(2));

    let none = Seed { ident: Ident { count: 5, len: 0 } };
    assert_eq!(
        GradFn::<u8>::grad(&none, &mut grads, &mut device),
        Err(DeviceError::InvalidLength)
    );
    assert_eq!(grads.len(), 1);
}

#[test]
fn get_triple_fetches_inputs_and_gradients() {
    let mut device: CPU<i32> = CPU::new();
    let mut counter = Counter::new();
    let lhs = device.cached(&mut counter, 2).unwrap();
    let rhs = device.cached(&mut counter, 2).unwrap();
    let out = device.cached(&mut counter, 2).unwrap();
    device.write(&lhs, &[1, 2]);
    device.write(&rhs, &[3, 4]);
    let ids = (lhs.ident().unwrap(), rhs.ident().unwrap(), out.ident().unwrap());
    let made = device.allocations();

    let mut grads = Gradients::new();
    let (l, r, lg, rg, og) = grads.get_triple(&mut device, ids).unwrap();
    assert_eq!(l.handle(), lhs.handle());
    assert_eq!(r.handle(), rhs.handle());
    assert_eq!(device.read(&l), [1, 2]);
    assert_eq!(device.read(&r), [3, 4]);
    assert_eq!(device.read(&lg), [0, 0]);
    assert_eq!(device.read(&rg), [0, 0]);
    assert_eq!(device.read(&og), [0, 0]);
    assert_eq!(device.allocations(), made + 3);
    assert_eq!(grads.len(), 3);
    assert_eq!(device.info(&lhs).map(|i| i.refs), Some(3));
    assert_eq!(device.info(&lg).map(|i| i.refs), Some(2));

    for buf in [og, rg, lg, r, l] {
        assert!(device.releasable(&buf));
        assert!(!device.release(buf));
    }
    assert_eq!(device.info(&lhs).map(|i| i.refs), Some(2));

    let again = grads.get_triple(&mut device, ids).unwrap();
    assert_eq!(device.allocations(), made + 3);
    assert_eq!(device.read(&again.2), [0, 0]);
}

#[test]
fn get_triple_with_one_input_twice() {
    let mut device: CPU<i32> = CPU::new();
    let mut counter = Counter::new();
    let x = device.cached(&mut counter, 3).unwrap();
    let out = device.cached(&mut counter, 3).unwrap();
    let ids = (x.ident().unwrap(), x.ident().unwrap(), out.ident().unwrap());

    let mut grads = Gradients::new();
    let (l, r, lg, rg, og) = grads.get_triple(&mut device, ids).unwrap();
    assert_eq!(l.handle(), r.handle());
    assert_eq!(lg.handle(), rg.handle());
    assert_ne!(lg.handle(), og.handle());
    assert_eq!(device.info(&x).map(|i| i.refs), Some(4));
    assert_eq!(device.info(&lg).map(|i| i.refs), Some(3));
    assert_eq!(grads.len(), 2);
}

#[test]
fn get_triple_gives_up_what_it_fetched_when_it_fails() {
    let mut device: CPU<i32> = CPU::new();
    let mut counter = Counter::new();
    let lhs = device.cached(&mut counter, 2).unwrap();
    let rhs = device.cached(&mut counter, 2).unwrap();
    let none = Ident { count: 9, len: 0 };
    let mut grads = Gradients::new();

    let ids = (lhs.ident().unwrap(), rhs.ident().unwrap(), none);
    assert_eq!(grads.get_triple(&mut device, ids).err(), Some(DeviceError::InvalidLength));
    assert_eq!(device.info(&lhs).map(|i| i.refs), Some(2));
    assert_eq!(device.info(&rhs).map(|i| i.refs), Some(2));
    assert_eq!(grads.len(), 2);
    assert_eq!(device.live_allocations(), 4);

    let ids = (lhs.ident().unwrap(), none, rhs.ident().unwrap());
    assert_eq!(grads.get_triple(&mut device, ids).err(), Some(DeviceError::InvalidLength));
    assert_eq!(device.info(&lhs).map(|i| i.refs), Some(2));

    let ids = (none, lhs.ident().unwrap(), rhs.ident().unwrap());
    assert_eq!(grads.get_triple(&mut device, ids).err(), Some(DeviceError::InvalidLength));
    assert_eq!(device.live_allocations(), 4);
}

#[test]
fn backward_seeded_keeps_the_steps_when_the_seed_is_refused() {
    let mut device: CPU<i32> = CPU::with_limit(1);
    let mut counter = Counter::new();
    let out = device.cached(&mut counter, 2).unwrap();
    let mut tape: Tape<Noop> = Tape::new();
    tape.add_grad_fn(Noop);

    assert_eq!(tape.backward_seeded(&mut device, &out), Err(DeviceError::AllocationError));
    assert_eq!(tape.len(), 1);
    assert_eq!(tape.grads().len(), 0);
    assert_eq!(device.allocations(), 1);
}

#[test]
fn get_double_gives_up_the_input_when_a_gradient_is_refused() {
    let mut device: CPU<i32> = CPU::with_limit(2);
    let mut counter = Counter::new();
    let x = device.cached(&mut counter, 2).unwrap();
    let out = device.cached(&mut counter, 2).unwrap();
    let ids = (x.ident().unwrap(), out.ident().unwrap());
    let mut grads = Gradients::new();

    assert_eq!(grads.get_double(&mut device, ids).err(), Some(DeviceError::AllocationError));
    assert_eq!(device.info(&x).map(|i| i.refs), Some(2));
    assert_eq!(grads.len(), 0);
    assert_eq!(device.live_allocations(), 2);

    let step = UnaryGradFn { ids, grad_fn: twice as fn(i32) -> i32 };
    assert_eq!(step.grad(&mut grads, &mut device), Err(DeviceError::AllocationError));
    assert_eq!(device.info(&x).map(|i| i.refs), Some(2));
}

#[test]
fn gradients_give_up_what_was_fetched() {
    let mut device: CPU<i32> = CPU::new();
    let mut counter = Counter::new();
    let x = device.cached(&mut counter, 2).unwrap();
    let out = device.cached(&mut counter, 2).unwrap();
    let ids = (x.ident().unwrap(), out.ident().unwrap());
    let mut grads = Gradients::new();

    let (a, b, c) = grads.get_double(&mut device, ids).unwrap();
    assert_eq!(device.info(&x).map(|i| i.refs), Some(3));
    let grad_handle = b.handle();
    grads.give_up(&mut device, vec![a, b, c]);
    assert_eq!(device.info(&x).map(|i| i.refs), Some(2));
    assert_eq!(device.live_allocations(), 4);

    let again = grads.get_like(&mut device, &x).unwrap();
    assert_eq!(again.handle(), grad_handle);
    assert_eq!(device.info(&again).map(|i| i.refs), Some(2));

    grads.give_up(&mut device, Vec::new());
    assert_eq!(device.live_allocations(), 4);
}

#[test]
fn an_operation_on_data_from_outside_is_recorded() {
    let mut device: CPU<i32> = CPU::new();
    let mut counter = Counter::new();
    let x = device.cached_with(&mut counter, &[2, 3]).unwrap();

    let mut tape: Tape<UnaryGradFn<fn(i32) -> i32>> = Tape::new();
    let out = tape
        .unary_ew(&mut device, &mut counter, &x, square, twice as fn(i32) -> i32)
        .unwrap();
    assert_eq!(device.read(&out), [4, 9]);
    assert_eq!(tape.backward_seeded(&mut device, &out), Ok(()));
    let x_grad = tape.get_grad(&mut device, &x).unwrap();
    assert_eq!(device.read(&x_grad), [4, 6]);
}
