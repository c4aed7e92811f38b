use custos::devices::cuda::{
    CUDAPtr, Context, CuCached, CublasHandle, CudaIntDevice, FnHandle, Module, Stream,
};
use custos::{
    alloc_request, cu_cached, fn_cache, AllocFlag, Buffer, Counter, CudaCache, CudaPtr,
    DeviceError, Ident, KernelCacheCU, RawCUBuf, CUDA,
};

fn device() -> CUDA {
    CUDA::new(CudaIntDevice(0), Context(11), Stream(22), CublasHandle(33))
}

#[test]
fn cuda_keeps_its_handles() {
    let cuda = device();
    assert_eq!(*cuda.device(), CudaIntDevice(0));
    assert_eq!(*cuda.ctx(), Context(11));
    assert_eq!(*cuda.stream(), Stream(22));
    assert_eq!(*cuda.handle(), CublasHandle(33));
    assert_eq!(cuda.cache().len(), 0);
    assert_eq!(cuda.graph().len(), 0);
    assert!(cuda.modules().is_empty());
}

#[test]
fn cuda_cache_misses_then_hits() {
    let mut cache = CudaCache::new();
    let ident = Ident { count: 0, len: 10 };
    assert!(cache.get::<f32>(ident).unwrap().is_none());

    let (buf, freed) = cache.add_node::<f32>(ident, CudaPtr(0xdead), Some(0));
    assert_eq!(freed, None);
    assert_eq!(buf.ptr().ptr, 0xdead);
    assert_eq!(buf.ptr().len, 10);
    assert_eq!(buf.ptr().flag, AllocFlag::Cache);
    assert_eq!(buf.ident(), Some(ident));
    assert_eq!(buf.node(), Some(0));
    assert_eq!(cache.len(), 1);
    assert_eq!(cache.held(CudaPtr(0xdead)), 2);

    let hit = cache.get::<f32>(ident).unwrap().unwrap();
    assert_eq!(hit.ptr().ptr, 0xdead);
    assert_eq!(hit.ptr().len, 10);
    assert_eq!(hit.node(), Some(0));
    assert_eq!(cache.held(CudaPtr(0xdead)), 3);
    assert_eq!(cache.get::<f32>(Ident { count: 0, len: 0 }).err(), Some(DeviceError::InvalidLength));
}

#[test]
fn cuda_cache_keeps_a_replaced_pointer_alive_while_a_buffer_holds_it() {
    let mut cache = CudaCache::new();
    let (old, _) = cache.add_node::<i32>(Ident { count: 3, len: 10 }, CudaPtr(1), None);
    assert!(cache.get::<i32>(Ident { count: 3, len: 20 }).unwrap().is_none());

    let (buf, freed) = cache.add_node::<i32>(Ident { count: 3, len: 20 }, CudaPtr(2), None);
    assert_eq!(freed, None);
    assert_eq!(buf.ptr().ptr, 2);
    assert_eq!(cache.len(), 1);
    assert_eq!(cache.held(CudaPtr(1)), 1);
    assert!(cache.get::<i32>(Ident { count: 3, len: 10 }).unwrap().is_none());

    assert_eq!(cache.release(old), Some(CudaPtr(1)));
    assert_eq!(cache.held(CudaPtr(1)), 0);
    assert_eq!(cache.get::<i32>(Ident { count: 3, len: 20 }).unwrap().map(|b| b.ptr().ptr), Some(2));
}

#[test]
fn cuda_cache_frees_a_replaced_pointer_that_nobody_holds() {
    let mut cache = CudaCache::new();
    let (old, _) = cache.add_node::<i32>(Ident { count: 3, len: 10 }, CudaPtr(1), Some(4));
    assert_eq!(cache.release(old), None);
    assert_eq!(cache.held(CudaPtr(1)), 1);

    let (_, freed) = cache.add_node::<i32>(Ident { count: 3, len: 20 }, CudaPtr(2), None);
    assert_eq!(freed, Some(RawCUBuf { ptr: 1, len: 10, node: Some(4) }));
    assert_eq!(cache.held(CudaPtr(1)), 0);
    assert_eq!(cache.held(CudaPtr(2)), 2);
}

#[test]
fn giving_up_a_cuda_buffer_frees_by_its_flag() {
    let mut cuda = device();
    let mut counter = Counter::new();
    let owned: Buffer<i32, CUDAPtr> =
        Buffer::from_parts(cuda.owned_ptr(4, AllocFlag::Owned, CudaPtr(7)), None, None);
    assert_eq!(*owned.ptr(), CUDAPtr { ptr: 7, len: 4, flag: AllocFlag::Owned });
    assert_eq!(cuda.release(owned), Some(CudaPtr(7)));

    let wrapped: Buffer<i32, CUDAPtr> =
        Buffer::from_parts(cuda.owned_ptr(4, AllocFlag::Wrapper, CudaPtr(8)), None, None);
    assert_eq!(cuda.release(wrapped), None);

    let (cached, _) = cuda.allocated::<i32>(&mut counter, Ident { count: 0, len: 4 }, CudaPtr(9));
    assert_eq!(cuda.held(CudaPtr(9)), 2);
    assert_eq!(cuda.release(cached), None);
    assert_eq!(cuda.held(CudaPtr(9)), 1);

    let forged: Buffer<i32, CUDAPtr> = Buffer::from_parts(
        CUDAPtr { ptr: 9, len: 4, flag: AllocFlag::Cache },
        Some(Ident { count: 0, len: 4 }),
        None,
    );
    assert_eq!(cuda.release(forged), None);
    assert_eq!(cuda.held(CudaPtr(9)), 1);
}

#[test]
fn zero_length_is_refused_before_any_driver_is_asked() {
    assert_eq!(alloc_request(0), Err(DeviceError::InvalidLength));
    assert_eq!(alloc_request(1), Ok(1));
    assert_eq!(alloc_request(usize::MAX), Ok(usize::MAX));
}

#[test]
fn cu_cached_asks_for_an_allocation_once() {
    let mut cuda = device();
    let mut counter = Counter::new();

    let ident = match cu_cached::<i32>(&mut cuda, &mut counter, 10).unwrap() {
        CuCached::Miss(ident) => ident,
        CuCached::Hit(_) => panic!("the cache of a new device is empty"),
    };
    assert_eq!(ident, Ident { count: 0, len: 10 });
    assert_eq!(counter.get_count(), 0);

    let (buf, freed) = cuda.allocated::<i32>(&mut counter, ident, CudaPtr(4096));
    assert_eq!(freed, None);
    assert_eq!(buf.ptr().ptr, 4096);
    assert_eq!(buf.node(), Some(0));
    assert_eq!(counter.get_count(), 1);
    assert_eq!(cuda.graph().len(), 1);
    assert_eq!(cuda.cache().len(), 1);

    counter.reset_counter(0);
    match cu_cached::<i32>(&mut cuda, &mut counter, 10).unwrap() {
        CuCached::Hit(again) => {
            assert_eq!(again.ptr().ptr, 4096);
            assert_eq!(again.ptr().len, 10);
            assert_eq!(again.ident(), Some(ident));
        },
        CuCached::Miss(_) => panic!("the slot was filled"),
    }
    assert_eq!(counter.get_count(), 1);
    assert_eq!(cuda.graph().len(), 1);
    assert_eq!(cuda.held(CudaPtr(4096)), 3);
}

#[test]
fn cu_cached_refuses_zero_length() {
    let mut cuda = device();
    let mut counter = Counter::new();
    assert_eq!(
        cu_cached::<u8>(&mut cuda, &mut counter, 0).err(),
        Some(DeviceError::InvalidLength)
    );
    assert_eq!(counter.get_count(), 0);
}

#[test]
fn cuda_kernels_are_compiled_once() {
    let mut cuda = device();
    let add = "extern \"C\" __global__ void add(int* lhs, int* rhs, int* out) {}";
    let relu = "extern \"C\" __global__ void relu(int* lhs, int* out) {}";
    assert_eq!(fn_cache(&cuda, add), None);

    cuda.add_kernel(add, Module(1), FnHandle(100));
    assert_eq!(fn_cache(&cuda, add), Some(FnHandle(100)));
    assert_eq!(fn_cache(&cuda, relu), None);

    cuda.add_kernel(relu, Module(2), FnHandle(200));
    assert_eq!(fn_cache(&cuda, add), Some(FnHandle(100)));
    assert_eq!(fn_cache(&cuda, relu), Some(FnHandle(200)));
    assert_eq!(cuda.kernel_cache().kernel(relu), Some(FnHandle(200)));
    assert_eq!(*cuda.modules(), vec![Module(1), Module(2)]);
    assert_eq!(cuda.kernel_cache().len(), 2);
}

#[test]
fn a_source_has_one_kernel() {
    let mut cache = KernelCacheCU::new();
    assert_eq!(cache.kernel(""), None);
    cache.insert("", FnHandle(1));
    cache.insert("a", FnHandle(2));
    assert_eq!(cache.len(), 2);
    cache.insert("a", FnHandle(3));
    assert_eq!(cache.len(), 2);
    assert_eq!(cache.kernel(""), Some(FnHandle(1)));
    assert_eq!(cache.kernel("a"), Some(FnHandle(3)));
    assert_eq!(cache.kernel("b"), None);
    cache.insert("", FnHandle(4));
    assert_eq!(cache.len(), 2);
    assert_eq!(cache.kernel(""), Some(FnHandle(4)));
    assert_eq!(cache.kernel("a"), Some(FnHandle(3)));
}

#[test]
fn test_dealloc_device_cache_cu() {
    let mut cuda = device();
    let mut counter = Counter::new();

    assert_eq!(cuda.cache().len(), 0);
    let ident = match cu_cached::<i32>(&mut cuda, &mut counter, 10).unwrap() {
        CuCached::Miss(ident) => ident,
        CuCached::Hit(_) => panic!("the cache of a new device is empty"),
    };
    let _a = cuda.allocated::<i32>(&mut counter, ident, CudaPtr(0x10));
    assert_eq!(cuda.cache().len(), 1);

    let taken = cuda.reset();
    assert_eq!(taken.len(), 1);
    assert_eq!(taken.get(&0x10).map(|info| (info.len, info.refs)), Some((10, 2)));
    assert_eq!(cuda.cache().len(), 0);
    assert_eq!(cuda.held(CudaPtr(0x10)), 0);
}
