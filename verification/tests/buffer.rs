use custos::{
    AllocFlag, Buffer, ClearBuf, CloneBuf, Device, DeviceError, Num, Read, VecRead, WriteBuf, CPU,
};

#[test]
fn num_test_deref() {
    let a: Buffer<i32, Num<i32>> = Buffer::from(5);
    let b: Buffer<i32, Num<i32>> = Buffer::from(7);

    let c = *a + *b;
    assert_eq!(c, 12);
}

#[test]
fn test_deref_mut() {
    let mut a: Buffer<i32, Num<i32>> = Buffer::from(5);
    *a += 10;
    assert_eq!(*a, 15);
}

#[test]
fn scalar_item_and_copy() {
    let x: Buffer<i64, Num<i64>> = Buffer::from(7);
    assert_eq!(*x, 7);
    assert_eq!(x.item(), 7);
    assert_eq!(x.len(), 0);
    assert_eq!(x.ident(), None);
    assert_eq!(x.node(), None);

    let mut y = x.copy();
    *y += 1;
    assert_eq!(y.item(), 8);
    assert_eq!(x.item(), 7);
}

#[test]
fn read_returns_what_the_buffer_was_made_from() {
    let mut device: CPU<i32> = CPU::new();
    let a = device.with_slice(&[5, 7, 2, 10]).unwrap();
    assert_eq!(device.read(&a), [5, 7, 2, 10]);
    assert_eq!(device.read_to_vec(&a), vec![5, 7, 2, 10]);
    assert_eq!(device.read_vec(&a), vec![5, 7, 2, 10]);
}

#[test]
fn clear_sets_every_element_to_zero() {
    let mut device: CPU<i32> = CPU::new();
    let a = device.with_slice(&[2, 4, 6, 8, 10, 12]).unwrap();
    assert_eq!(device.read(&a), [2, 4, 6, 8, 10, 12]);

    device.clear(&a);
    assert_eq!(device.read(&a), [0, 0, 0, 0, 0, 0]);
    assert_eq!(a.len(), 6);
}

#[test]
fn test_buffer_from_read() {
    let mut device: CPU<i32> = CPU::new();

    let buf = device.with_slice(&[313, 3, 1, 8]).unwrap();
    assert_eq!(device.read_to_vec(&buf), vec![313, 3, 1, 8]);
}

#[test]
fn test_buffer_alloc_and_read() {
    let mut device: CPU<u8> = CPU::new();

    let buf = Buffer::<u8>::new(&mut device, 10).unwrap();
    assert_eq!(device.read(&buf), [0; 10]);

    device.write(&buf, &[0, 1, 2, 3, 4, 5, 6, 7, 8, 9]);
    assert_eq!(&[0, 1, 2, 3, 4, 5, 6, 7, 8, 9], device.read(&buf));
    assert_eq!(buf.len(), 10);
}

#[test]
fn test_rc_get_dev() {
    let mut device: CPU<i32> = CPU::new();
    let a = device.with_slice(&[1, 2, 3, 4, 5, 6]).unwrap();

    for _ in 0..100 {
        device.clear(&a);
        assert_eq!(&[0; 6], device.read(&a));
    }
}

#[test]
fn new_buffer_is_owned_zeroed_and_a_leaf() {
    let mut device: CPU<i16> = CPU::new();
    let a = device.buffer(3).unwrap();
    assert_eq!(a.len(), 3);
    assert_eq!(a.flag(), AllocFlag::Owned);
    assert_eq!(a.ident(), None);
    assert_eq!(a.node(), Some(0));
    assert_eq!(device.read(&a), [0, 0, 0]);
    assert_eq!(device.graph().len(), 1);
    assert!(device.graph().is_leaf(0));
    assert_eq!(device.cache_len(), 0);
    assert_eq!(device.allocations(), 1);

    let b = device.buffer(2).unwrap();
    assert_ne!(a.handle(), b.handle());
    assert_eq!(b.node(), Some(1));
    assert_eq!(device.allocations(), 2);
    assert_eq!(device.live_allocations(), 2);
}

#[test]
fn zero_length_is_refused_everywhere() {
    let mut device: CPU<i32> = CPU::new();
    assert_eq!(device.buffer(0).err(), Some(DeviceError::InvalidLength));
    assert_eq!(Buffer::<i32>::new(&mut device, 0).err(), Some(DeviceError::InvalidLength));
    assert_eq!(device.with_slice(&[]).err(), Some(DeviceError::InvalidLength));
    assert_eq!(device.alloc_with_vec(Vec::new()).err(), Some(DeviceError::InvalidLength));
    assert_eq!(device.allocations(), 0);
    assert_eq!(device.graph().len(), 0);
}

#[test]
fn write_replaces_the_elements() {
    let mut device: CPU<i32> = CPU::new();
    let buf = device.buffer(4).unwrap();
    device.write(&buf, &[9, 3, 2, -4]);
    assert_eq!(device.read(&buf), &[9, 3, 2, -4]);
}

#[test]
fn write_leaves_other_buffers_alone() {
    let mut device: CPU<i32> = CPU::new();
    let a = device.with_slice(&[1, 2]).unwrap();
    let b = device.with_slice(&[3, 4]).unwrap();
    device.write(&a, &[7, 8]);
    assert_eq!(device.read(&a), [7, 8]);
    assert_eq!(device.read(&b), [3, 4]);
}

#[test]
fn clone_buf_is_a_deep_copy() {
    let mut device: CPU<i32> = CPU::new();
    let buf = device.with_slice(&[1, 2, 6, 2, 4]).unwrap();

    let cloned = device.clone_buf(&buf).unwrap();
    assert_eq!(device.read_to_vec(&buf), device.read_to_vec(&cloned));
    assert_ne!(buf.handle(), cloned.handle());
    assert_eq!(cloned.flag(), AllocFlag::Owned);

    device.clear(&buf);
    assert_eq!(device.read(&cloned), [1, 2, 6, 2, 4]);
    assert_eq!(device.read(&buf), [0; 5]);
}

#[test]
fn alloc_with_vec_takes_the_elements() {
    let mut device: CPU<u64> = CPU::new();
    let buf = device.alloc_with_vec(vec![1, 5, 4, 3, 6, 9, 0, 4]).unwrap();
    assert_eq!(buf.len(), 8);
    assert_eq!(device.read(&buf), [1, 5, 4, 3, 6, 9, 0, 4]);
}

#[test]
fn copy_slice_to_copies_the_range() {
    let mut device: CPU<i32> = CPU::new();
    let src = device.with_slice(&[1, 2, 3, 4, 5]).unwrap();
    let dst = device.with_slice(&[0, 0, 0, 0, 0, 0]).unwrap();

    device.copy_slice_to(&src, 1..4, &dst, 2..5);
    assert_eq!(device.read(&dst), [0, 0, 2, 3, 4, 0]);
    assert_eq!(device.read(&src), [1, 2, 3, 4, 5]);

    device.copy_slice_to(&src, 0..0, &dst, 6..6);
    assert_eq!(device.read(&dst), [0, 0, 2, 3, 4, 0]);
}

#[test]
fn copy_slice_to_within_one_buffer_copies_what_was_there() {
    let mut device: CPU<i32> = CPU::new();
    let buf = device.with_slice(&[1, 2, 3, 4]).unwrap();
    device.copy_slice_to(&buf, 0..3, &buf, 1..4);
    assert_eq!(device.read(&buf), [1, 1, 2, 3]);
}

#[test]
fn releasing_an_owned_buffer_frees_it_once() {
    let mut device: CPU<i32> = CPU::new();
    let a = device.with_slice(&[1, 2, 3]).unwrap();
    let b = device.with_slice(&[4, 5]).unwrap();
    assert_eq!(device.live_allocations(), 2);
    assert_eq!(device.info(&a).map(|i| i.refs), Some(1));
    assert!(device.releasable(&a));

    let stale: Buffer<i32> = Buffer::from_parts(*a.ptr(), a.ident(), a.node());
    assert!(device.release(a));
    assert_eq!(device.live_allocations(), 1);
    assert_eq!(device.allocations(), 2);
    assert_eq!(device.info(&stale), None);
    assert!(!device.owns(&stale));
    assert!(!device.releasable(&stale));
    assert_eq!(device.read(&b), [4, 5]);

    let c = device.buffer(3).unwrap();
    assert_ne!(c.handle(), stale.handle());
    assert!(!device.owns(&stale));
}

#[test]
fn a_wrapping_buffer_gives_up_nothing() {
    let mut device: CPU<i32> = CPU::new();
    let a = device.with_slice(&[1, 2, 3]).unwrap();
    let mut ptr = *a.ptr();
    ptr.flag = AllocFlag::Wrapper;
    let view: Buffer<i32> = Buffer::from_parts(ptr, None, a.node());
    assert!(device.owns(&view));
    assert_eq!(device.read(&view), [1, 2, 3]);

    assert!(!device.release(view));
    assert_eq!(device.live_allocations(), 1);
    assert_eq!(device.read(&a), [1, 2, 3]);
}

#[test]
fn a_buffer_of_another_device_is_not_owned() {
    let mut one: CPU<i32> = CPU::new();
    let other: CPU<i32> = CPU::new();
    let a = one.with_slice(&[1]).unwrap();
    assert!(one.owns(&a));
    assert!(!other.owns(&a));
}

#[test]
fn a_fresh_device_is_empty() {
    let device: CPU<u8> = CPU::default();
    assert_eq!(device.cache_len(), 0);
    assert!(device.cache().is_empty());
    assert!(device.graph().is_empty());
    assert_eq!(device.allocations(), 0);
    assert_eq!(device.live_allocations(), 0);
}

#[test]
fn copy_slice_all_copies_range_by_range() {
    let mut device: CPU<i32> = CPU::new();
    let src = device.with_slice(&[1, 2, 3, 4, 5, 6]).unwrap();
    let dst = device.with_slice(&[0; 6]).unwrap();

    device.copy_slice_all(&src, &dst, &[(0..2, 4..6), (2..5, 0..3)]);
    assert_eq!(device.read(&dst), [3, 4, 5, 0, 1, 2]);
    assert_eq!(device.read(&src), [1, 2, 3, 4, 5, 6]);

    device.copy_slice_all(&src, &dst, &[]);
    assert_eq!(device.read(&dst), [3, 4, 5, 0, 1, 2]);
}

#[test]
fn copy_slice_all_within_one_buffer_sees_earlier_copies() {
    let mut device: CPU<i32> = CPU::new();
    let buf = device.with_slice(&[1, 2, 3, 4]).unwrap();
    device.copy_slice_all(&buf, &buf, &[(0..1, 1..2), (1..2, 2..3)]);
    assert_eq!(device.read(&buf), [1, 1, 1, 4]);
}
