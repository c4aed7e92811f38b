pub mod cpu;
pub mod cuda;
pub mod kernels;
pub mod opencl;
pub mod ptrs;
pub mod select;

pub use cpu::{cpu_cached, ew_op, CPU};
pub use cuda::{
    cu_cached, fn_cache, CudaCache, CudaPtr, KernelCacheCU, RawCUBuf, CUDA,
};
pub use opencl::{
    cl_cached, construct_buffer, constructed, to_unified, KernelCacheCL, Mem, OpenCL, RawCL,
};
pub use select::{alloc_request, chosen_device};
pub use ptrs::PtrBooks;
