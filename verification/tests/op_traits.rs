use custos::{
    ew_op, ApplyFunction, Counter, Deps, Device, DeviceError, Ident, Number, Read,
    UnaryElementWise, UnaryGrad, CPU,
};

#[test]
fn test_unary_ew_stack_no_autograd() {
    let mut device: CPU<i32> = CPU::new();
    let mut counter = Counter::new();
    let buf = device.with_slice(&[1, 2, 4, 5, 3]).unwrap();

    let out = device.unary_ew(&mut counter, &buf, |x| x * 3, |x| x).unwrap();

    assert_eq!(device.read(&out), [3, 6, 12, 15, 9]);
}

#[test]
fn apply_fn_maps_into_a_cached_buffer() {
    let mut device: CPU<i64> = CPU::new();
    let mut counter = Counter::starting_at(4);
    let buf = device.with_slice(&[1, -2, 3]).unwrap();

    let out = device.apply_fn(&mut counter, &buf, |x| x * x + 1).unwrap();
    assert_eq!(device.read(&out), [2, 5, 10]);
    assert_eq!(device.read(&buf), [1, -2, 3]);
    assert_eq!(out.ident(), Some(Ident { count: 4, len: 3 }));
    assert_eq!(counter.get_count(), 5);
    assert_eq!(device.graph().node(1).map(|n| n.deps), Some(Deps::Unary(0)));
    assert_eq!(device.cache_len(), 1);
}

#[test]
fn ew_op_combines_pair_by_pair() {
    let mut device: CPU<i32> = CPU::new();
    let mut counter = Counter::new();
    let lhs = device.with_slice(&[1, 2, 3, 4]).unwrap();
    let rhs = device.with_slice(&[10, 20, 30, 40]).unwrap();

    let sum = ew_op(&mut device, &mut counter, &lhs, &rhs, |x, y| x + y).unwrap();
    assert_eq!(device.read(&sum), [11, 22, 33, 44]);
    let diff = ew_op(&mut device, &mut counter, &lhs, &rhs, |x, y| x - y).unwrap();
    assert_eq!(device.read(&diff), [-9, -18, -27, -36]);
    let product = ew_op(&mut device, &mut counter, &lhs, &rhs, |x, y| x * y).unwrap();
    assert_eq!(device.read(&product), [10, 40, 90, 160]);

    assert_eq!(counter.get_count(), 3);
    assert_eq!(device.graph().node(2).map(|n| n.deps), Some(Deps::Binary(0, 1)));
}

#[test]
fn ew_op_stops_at_the_shorter_operand() {
    let mut device: CPU<i32> = CPU::new();
    let mut counter = Counter::new();
    let lhs = device.with_slice(&[1, 2, 3, 4]).unwrap();
    let rhs = device.with_slice(&[10, 20]).unwrap();

    let sum = ew_op(&mut device, &mut counter, &lhs, &rhs, |x, y| x + y).unwrap();
    assert_eq!(sum.len(), 2);
    assert_eq!(device.read(&sum), [11, 22]);
}

#[test]
fn two_adds_share_one_output_slot() {
    let mut device: CPU<i32> = CPU::new();
    let mut counter = Counter::new();
    let lhs = device.with_slice(&[1, 2, 3]).unwrap();
    let rhs = device.with_slice(&[4, 5, 6]).unwrap();
    let made = device.allocations();

    let first = ew_op(&mut device, &mut counter, &lhs, &rhs, |x, y| x + y).unwrap();
    assert_eq!(device.read(&first), [5, 7, 9]);
    assert_eq!(device.allocations(), made + 1);

    custos::WriteBuf::write(&mut device, &lhs, &[10, 20, 30]);
    counter.reset_counter(0);
    let second = ew_op(&mut device, &mut counter, &lhs, &rhs, |x, y| x + y).unwrap();
    assert_eq!(device.read(&second), [14, 25, 36]);

    assert_eq!(second.handle(), first.handle());
    assert_eq!(device.allocations(), made + 1);
    assert_eq!(device.cache_len(), 1);
    assert_eq!(device.graph().len(), 3);
}

#[test]
fn an_operation_can_take_its_own_output_as_input() {
    let mut device: CPU<i32> = CPU::new();
    let mut counter = Counter::new();
    let x = device.with_slice(&[1, 2, 3]).unwrap();
    let acc = device.apply_fn(&mut counter, &x, |v| v + 1).unwrap();
    assert_eq!(device.read(&acc), [2, 3, 4]);

    counter.reset_counter(0);
    let again = device.apply_fn(&mut counter, &acc, |v| v * 10).unwrap();
    assert_eq!(again.handle(), acc.handle());
    assert_eq!(device.read(&again), [20, 30, 40]);
}

#[test]
fn add_unary_grad_accumulates() {
    let mut device: CPU<i32> = CPU::new();
    let lhs = device.with_slice(&[1, 2, 3]).unwrap();
    let lhs_grad = device.with_slice(&[10, 20, 30]).unwrap();
    let out = device.with_slice(&[2, 2, 2]).unwrap();

    device.add_unary_grad(&lhs, &lhs_grad, &out, |x| 2 * x);
    assert_eq!(device.read(&lhs_grad), [14, 28, 42]);
    assert_eq!(device.read(&lhs), [1, 2, 3]);
    assert_eq!(device.read(&out), [2, 2, 2]);
}

#[test]
fn add_unary_grad_stops_at_the_shortest_buffer() {
    let mut device: CPU<i32> = CPU::new();
    let lhs = device.with_slice(&[1, 2]).unwrap();
    let lhs_grad = device.with_slice(&[10, 20, 30]).unwrap();
    let out = device.with_slice(&[1, 1, 1, 1]).unwrap();

    device.add_unary_grad(&lhs, &lhs_grad, &out, |x| x);
    assert_eq!(device.read(&lhs_grad), [11, 22, 30]);
}

#[test]
fn add_unary_grad_wraps_around() {
    let mut device: CPU<u8> = CPU::new();
    let lhs = device.with_slice(&[1]).unwrap();
    let lhs_grad = device.with_slice(&[250]).unwrap();
    let out = device.with_slice(&[5]).unwrap();

    device.add_unary_grad(&lhs, &lhs_grad, &out, |_| 2);
    assert_eq!(device.read(&lhs_grad), [4]);
}

#[test]
fn numbers_have_zero_one_sum_and_product() {
    assert_eq!(<i32 as Number>::zero(), 0);
    assert_eq!(<i32 as Number>::one(), 1);
    assert_eq!(<u64 as Number>::zero(), 0);
    assert_eq!(<u64 as Number>::one(), 1);
    assert_eq!(3i32.plus(4), 7);
    assert_eq!(3i32.times(4), 12);
    assert_eq!(i8::MAX.plus(1), i8::MIN);
    assert_eq!(200u8.times(2), 144);
    assert_eq!(usize::MAX.plus(2), 1);
    assert_eq!((-3i64).times(-3), 9);
}

#[test]
fn zero_length_never_reaches_an_operation() {
    let mut device: CPU<i32> = CPU::new();
    assert_eq!(device.with_slice(&[]).err(), Some(DeviceError::InvalidLength));
    assert_eq!(device.live_allocations(), 0);
}

#[test]
fn an_operation_on_a_full_device_changes_nothing() {
    let mut device: CPU<i32> = CPU::with_limit(2);
    let mut counter = Counter::new();
    let lhs = device.with_slice(&[1, 2]).unwrap();
    let rhs = device.with_slice(&[3, 4]).unwrap();

    let res = ew_op(&mut device, &mut counter, &lhs, &rhs, |x, y| x + y);
    assert_eq!(res.err(), Some(DeviceError::AllocationError));
    let res = device.apply_fn(&mut counter, &lhs, |x| x);
    assert_eq!(res.err(), Some(DeviceError::AllocationError));
    let res = device.unary_ew(&mut counter, &lhs, |x| x, |x| x);
    assert_eq!(res.err(), Some(DeviceError::AllocationError));
    assert_eq!(counter.get_count(), 0);
    assert_eq!(device.graph().len(), 2);
    assert_eq!(device.cache_len(), 0);
    assert_eq!(device.read(&lhs), [1, 2]);
}

#[test]
fn add_sub_and_mul_combine_pair_by_pair() {
    let mut device: CPU<i32> = CPU::new();
    let mut counter = Counter::new();
    let lhs = device.with_slice(&[1, 2, 3, 4, 5, 6]).unwrap();
    let rhs = device.with_slice(&[3, 4, 5, 6, 7, 8]).unwrap();

    let sum = device.add(&mut counter, &lhs, &rhs).unwrap();
    assert_eq!(device.read(&sum), [4, 6, 8, 10, 12, 14]);
    let difference = device.sub(&mut counter, &lhs, &rhs).unwrap();
    assert_eq!(device.read(&difference), [-2, -2, -2, -2, -2, -2]);
    let product = device.mul(&mut counter, &lhs, &rhs).unwrap();
    assert_eq!(device.read(&product), [3, 8, 15, 24, 35, 48]);
    assert_eq!(counter.get_count(), 3);
    assert_eq!(3i32.minus(5), -2);
    assert_eq!(0u8.minus(1), 255);
}

#[test]
fn a_repeated_add_refills_the_slot_it_reuses() {
    let mut device: CPU<i32> = CPU::new();
    let mut counter = Counter::new();
    let lhs = device.with_slice(&[1, 2, 3]).unwrap();
    let rhs = device.with_slice(&[10, 20, 30]).unwrap();

    let first = device.add(&mut counter, &lhs, &rhs).unwrap();
    assert_eq!(device.read(&first), [11, 22, 33]);
    let made = device.allocations();
    let nodes = device.graph().len();

    custos::WriteBuf::write(&mut device, &lhs, &[-1, -2, -3]);
    custos::WriteBuf::write(&mut device, &rhs, &[5, 5, 5]);
    counter.reset_counter(0);
    let second = device.add(&mut counter, &lhs, &rhs).unwrap();

    assert_eq!(second.handle(), first.handle());
    assert_eq!(second.len(), 3);
    assert_eq!(device.read(&second), [4, 3, 2]);
    assert_eq!(device.read(&lhs), [-1, -2, -3]);
    assert_eq!(device.read(&rhs), [5, 5, 5]);
    assert_eq!(device.allocations(), made);
    assert_eq!(device.graph().len(), nodes);
    assert_eq!(device.cache_len(), 1);
    assert_eq!(counter.get_count(), 1);
}

#[test]
fn add_wraps_around() {
    let mut device: CPU<u8> = CPU::new();
    let mut counter = Counter::new();
    let lhs = device.with_slice(&[250, 1]).unwrap();
    let rhs = device.with_slice(&[10, 1]).unwrap();
    let sum = device.add(&mut counter, &lhs, &rhs).unwrap();
    assert_eq!(device.read(&sum), [4, 2]);
}
