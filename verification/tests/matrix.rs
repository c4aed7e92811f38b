use custos::{ew_op, ApplyFunction, Counter, Read, VecRead, CPU};

#[test]
fn test_matrix() {
    let mut device: CPU<i32> = CPU::new();
    let matrix = device.buffer(10 * 10).unwrap();
    assert_eq!(device.read_vec(&matrix), vec![0; 10 * 10]);
}

#[test]
fn test_matrix_read() {
    let mut device: CPU<i32> = CPU::new();

    let matrix = device.with_slice(&[151, 6123, 7, 521, 862, 4765]).unwrap();
    let read = device.read_to_vec(&matrix);
    assert_eq!(&read, &[151, 6123, 7, 521, 862, 4765]);
}

#[test]
fn test_each_op() {
    let mut device: CPU<i32> = CPU::new();
    let mut counter = Counter::new();

    let x = device.with_slice(&[1, 2, 3, 4, 5, 6]).unwrap();
    let res = device.apply_fn(&mut counter, &x, |x| x + 1).unwrap();
    assert_eq!(device.read_to_vec(&res), vec![2, 3, 4, 5, 6, 7])
}

#[test]
fn test_sub_assign_cpu() {
    let mut device: CPU<i32> = CPU::new();
    let mut counter = Counter::new();

    let x = device.with_slice(&[1, 2, 3, 4, 5, 6]).unwrap();
    let y = device.with_slice(&[3, 4, 5, 6, 7, 8]).unwrap();

    let x = ew_op(&mut device, &mut counter, &x, &y, |x, y| x - y).unwrap();
    assert_eq!(device.read_to_vec(&x), vec![-2, -2, -2, -2, -2, -2]);
}

fn slice_fn<T>(x: &[T]) -> &T {
    &x[0]
}

#[test]
fn matrix_test_deref() {
    let mut device: CPU<i32> = CPU::new();

    let x = device.with_slice(&[9, 3, 4]).unwrap();
    let item = *slice_fn(device.read(&x));
    assert_eq!(9, item);
}
