use custos::devices::opencl::{CLPtr, ClCached, Construct, Kernel};
use custos::{
    cl_cached, construct_buffer, constructed, to_unified, AllocFlag, Buffer, CacheBuf, Counter,
    Deps, DeviceError, Ident, KernelCacheCL, Mem, Node, OpenCL, RawCL, Read, WriteBuf, CPU,
};

#[test]
fn test_kernel_cache() {
    let mut kernel_cache = KernelCacheCL::new();
    let foo = "
            __kernel void foo(__global float* test) {}
        ";
    let bar = "
            __kernel void bar(__global float* test, __global float* out) {}
        ";

    assert_eq!(kernel_cache.kernel_cache(foo), None);
    kernel_cache.insert(foo, Kernel(1));

    let kernel = kernel_cache.kernel_cache(foo).unwrap();
    let same_kernel = kernel_cache.kernel_cache(foo).unwrap();
    assert_eq!(kernel.0, same_kernel.0);

    assert_eq!(kernel_cache.kernel_cache(bar), None);
    kernel_cache.insert(bar, Kernel(2));
    let kernel = kernel_cache.kernel_cache(foo).unwrap();
    let another_kernel = kernel_cache.kernel_cache(bar).unwrap();
    assert_ne!(kernel.0, another_kernel.0);
    assert_eq!(kernel_cache.len(), 2);

    kernel_cache.insert(foo, Kernel(3));
    assert_eq!(kernel_cache.len(), 2);
    assert_eq!(kernel_cache.kernel_cache(foo), Some(Kernel(3)));
    assert_eq!(kernel_cache.kernel_cache(bar), Some(Kernel(2)));
}

#[test]
fn test_to_unified() {
    let mut cpu: CPU<i32> = CPU::new();
    let mut counter = Counter::new();
    let no_drop = cpu.cached(&mut counter, 3).unwrap();
    cpu.write(&no_drop, &[1, 23, 76]);

    let mut device = OpenCL::new(true);
    let cl_counter = Counter::new();
    let node = Node { idx: 0, deps: Deps::Leaf, len: 3 };
    let res = to_unified(&mut device, &cl_counter, &no_drop, node, Ok(0x1000));

    assert_eq!(res, Ok((0x1000, None)));
    assert_eq!(cl_counter.get_count(), 0);
    assert_eq!(device.cache_len(), 1);
    assert_eq!(device.held(0x1000), 2);

    let buf: Buffer<i32, CLPtr> = Buffer::from_parts(
        CLPtr {
            ptr: 0x1000,
            host_ptr: Some(no_drop.handle()),
            len: no_drop.len(),
            flag: AllocFlag::Cache,
        },
        None,
        None,
    );
    assert_eq!(buf.ptr().len, 3);
    assert_eq!(cpu.read(&no_drop), [1, 23, 76]);
}

#[test]
fn to_unified_hands_on_the_error_of_the_driver() {
    let mut cpu: CPU<i32> = CPU::new();
    let mut counter = Counter::new();
    let no_drop = cpu.cached(&mut counter, 3).unwrap();
    let mut device = OpenCL::new(true);
    let mut cl_counter = Counter::starting_at(5);
    let node = Node { idx: 0, deps: Deps::Leaf, len: 3 };

    let res = to_unified(
        &mut device,
        &cl_counter,
        &no_drop,
        node,
        Err(DeviceError::AllocationError),
    );
    assert_eq!(res, Err(DeviceError::AllocationError));
    assert_eq!(device.cache_len(), 0);

    let res = constructed(
        &mut device,
        &mut cl_counter,
        &no_drop,
        node,
        Err(DeviceError::AllocationError),
    );
    assert_eq!(res.err(), Some(DeviceError::AllocationError));
    assert_eq!(cl_counter.get_count(), 5);
    assert_eq!(device.cache_len(), 0);
}

#[test]
fn test_construct_buffer() {
    let mut cpu: CPU<i32> = CPU::new();
    let mut counter = Counter::new();
    let no_drop = cpu.cached(&mut counter, 3).unwrap();
    cpu.write(&no_drop, &[1, 23, 76]);

    let mut device = OpenCL::new(true);
    let mut cl_counter = Counter::new();
    let node = match construct_buffer(&mut device, &cl_counter, &no_drop, Deps::Leaf) {
        Ok(Construct::Create(node)) => node,
        _ => panic!("nothing was made unified yet"),
    };
    assert_eq!(node, Node { idx: 0, deps: Deps::Leaf, len: 3 });
    assert_eq!(device.graph().len(), 1);
    assert_eq!(cl_counter.get_count(), 0);

    let (buf, freed) =
        constructed(&mut device, &mut cl_counter, &no_drop, node, Ok(0x2000)).unwrap();
    assert_eq!(freed, None);
    assert_eq!(buf.ptr().ptr, 0x2000);
    assert_eq!(buf.ptr().host_ptr, Some(no_drop.handle()));
    assert_eq!(buf.ptr().flag, AllocFlag::Cache);
    assert_eq!(buf.ident(), Some(Ident { count: 0, len: 3 }));
    assert_eq!(buf.node(), Some(0));
    assert_eq!(cl_counter.get_count(), 1);

    cl_counter.reset_counter(0);
    match construct_buffer(&mut device, &cl_counter, &no_drop, Deps::Leaf) {
        Ok(Construct::Cached(again)) => {
            assert_eq!(again.ptr().ptr, 0x2000);
            assert_eq!(again.ptr().host_ptr, Some(no_drop.handle()));
            assert_eq!(again.ptr().flag, AllocFlag::Cache);
            assert_eq!(again.node(), Some(0));
        },
        _ => panic!("the buffer was made unified before"),
    }
    assert_eq!(device.graph().len(), 1);
    assert_eq!(cl_counter.get_count(), 0);
    assert_eq!(device.held(0x2000), 3);
    assert_eq!(cpu.read(&no_drop), [1, 23, 76]);
}

#[test]
fn construct_buffer_refuses_an_owned_buffer() {
    let mut cpu: CPU<i32> = CPU::new();
    let owned = cpu.with_slice(&[1, 2, 3]).unwrap();
    let mut device = OpenCL::new(true);
    let counter = Counter::new();
    let res = construct_buffer(&mut device, &counter, &owned, Deps::Leaf);
    assert_eq!(res.err(), Some(DeviceError::ConstructError));
    assert_eq!(device.graph().len(), 0);
    assert_eq!(device.cache_len(), 0);
}

#[test]
fn a_replaced_memory_object_lives_while_a_buffer_shares_it() {
    let mut cpu: CPU<u8> = CPU::new();
    let mut counter = Counter::new();
    let small = cpu.cached(&mut counter, 2).unwrap();
    let large = cpu.cached(&mut counter, 5).unwrap();

    let mut device = OpenCL::new(true);
    let mut cl_counter = Counter::new();
    let node = Node { idx: 0, deps: Deps::Leaf, len: 2 };
    let (first, _) = constructed(&mut device, &mut cl_counter, &small, node, Ok(7)).unwrap();

    cl_counter.reset_counter(0);
    let (_, freed) = constructed(&mut device, &mut cl_counter, &large, node, Ok(8)).unwrap();
    assert_eq!(freed, None);
    assert_eq!(device.cache_len(), 1);
    assert_eq!(device.held(7), 1);
    assert_eq!(device.held(8), 2);

    assert_eq!(device.release(first), Some(7));
    assert_eq!(device.held(7), 0);
}

#[test]
fn a_replaced_memory_object_that_nobody_shares_is_handed_back() {
    let mut cpu: CPU<u8> = CPU::new();
    let mut counter = Counter::new();
    let small = cpu.cached(&mut counter, 2).unwrap();
    let large = cpu.cached(&mut counter, 5).unwrap();

    let mut device = OpenCL::new(true);
    let cl_counter = Counter::new();
    let node = Node { idx: 0, deps: Deps::Leaf, len: 2 };
    to_unified(&mut device, &cl_counter, &small, node, Ok(7)).unwrap();
    let first: Buffer<u8, CLPtr> = Buffer::from_parts(
        CLPtr { ptr: 7, host_ptr: Some(small.handle()), len: 2, flag: AllocFlag::Cache },
        None,
        None,
    );
    assert_eq!(device.release(first), None);
    assert_eq!(device.held(7), 1);

    let res = to_unified(&mut device, &cl_counter, &large, node, Ok(8));
    assert_eq!(
        res,
        Ok((8, Some(RawCL { ptr: 7, host_ptr: Some(small.handle()), len: 2, node: Some(0) })))
    );
    assert_eq!(device.cache_len(), 1);
    assert_eq!(device.held(7), 0);
}

#[test]
fn cl_cached_asks_for_a_memory_object_once() {
    let mut device = OpenCL::new(false);
    assert!(!device.unified_mem());
    let mut counter = Counter::new();
    assert_eq!(
        cl_cached::<i32>(&mut device, &mut counter, 0).err(),
        Some(DeviceError::InvalidLength)
    );

    let ident = match cl_cached::<i32>(&mut device, &mut counter, 7).unwrap() {
        ClCached::Miss(ident) => ident,
        ClCached::Hit(_) => panic!("the cache of a new device is empty"),
    };
    let (buf, freed) = device.allocated::<i32>(&mut counter, ident, 0x30, None);
    assert_eq!(freed, None);
    assert_eq!(buf.ptr().host_ptr, None);
    assert_eq!(counter.get_count(), 1);

    counter.reset_counter(0);
    match cl_cached::<i32>(&mut device, &mut counter, 7).unwrap() {
        ClCached::Hit(again) => {
            assert_eq!(again.ptr().ptr, 0x30);
            assert_eq!(again.ptr().host_ptr, None);
        },
        ClCached::Miss(_) => panic!("the slot was filled"),
    }
    assert_eq!(device.held(0x30), 3);

    device.add_kernel("k", Kernel(5));
    device.set_unified_mem(true);
    assert!(device.unified_mem());
    let taken = device.reset();
    assert_eq!(taken.get(&0x30).map(|info| (info.len, info.refs)), Some((7, 3)));
    assert!(device.unified_mem());
    assert_eq!(device.cache_len(), 0);
    assert_eq!(device.graph().len(), 0);
    assert_eq!(device.kernel_cache().len(), 0);
}

#[test]
fn an_owned_pointer_names_its_host_side_on_unified_memory_only() {
    let unified = OpenCL::new(true);
    let apart = OpenCL::new(false);
    assert_eq!(
        unified.owned_ptr(4, AllocFlag::Owned, 0x50, Some(0x9000)),
        CLPtr { ptr: 0x50, host_ptr: Some(0x9000), len: 4, flag: AllocFlag::Owned }
    );
    assert_eq!(
        apart.owned_ptr(4, AllocFlag::Owned, 0x50, Some(0x9000)),
        CLPtr { ptr: 0x50, host_ptr: None, len: 4, flag: AllocFlag::Owned }
    );
    assert_eq!(
        unified.owned_ptr(1, AllocFlag::Wrapper, 0x51, None),
        CLPtr { ptr: 0x51, host_ptr: None, len: 1, flag: AllocFlag::Wrapper }
    );
}

#[test]
fn giving_up_an_opencl_buffer_releases_by_its_flag() {
    let mut device = OpenCL::new(false);
    let owned: Buffer<i32, CLPtr> =
        Buffer::from_parts(device.owned_ptr(2, AllocFlag::Owned, 0x60, None), None, None);
    assert_eq!(device.release(owned), Some(0x60));
    let wrapped: Buffer<i32, CLPtr> =
        Buffer::from_parts(device.owned_ptr(2, AllocFlag::Wrapper, 0x61, None), None, None);
    assert_eq!(device.release(wrapped), None);
}

#[test]
fn test_dealloc_device_cache_cl() {
    let mut device = OpenCL::new(false);
    let mut counter = Counter::new();

    assert_eq!(device.cache_len(), 0);
    let ident = match cl_cached::<i32>(&mut device, &mut counter, 10).unwrap() {
        ClCached::Miss(ident) => ident,
        ClCached::Hit(_) => panic!("the cache of a new device is empty"),
    };
    let _a = device.allocated::<i32>(&mut counter, ident, 0x10, None);
    assert_eq!(device.cache_len(), 1);

    let taken = device.reset();
    assert_eq!(taken.len(), 1);
    assert!(taken.contains_key(&0x10));
    assert_eq!(device.cache_len(), 0);
}

#[test]
fn mem_passes_the_duty_to_release() {
    let mut mem = Mem::new(0x77);
    assert!(mem.owner);
    let view = mem.as_cloned();
    assert_eq!(view, Mem { ptr: 0x77, owner: false });
    assert!(mem.owner);

    let heir = mem.as_cloned_no_drop();
    assert_eq!(heir, Mem { ptr: 0x77, owner: true });
    assert_eq!(mem, Mem { ptr: 0x77, owner: false });

    let second = mem.as_cloned_no_drop();
    assert_eq!(second, Mem { ptr: 0x77, owner: false });
}
