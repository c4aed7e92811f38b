//! A compute-buffer runtime whose buffers are drawn from an allocation cache.
//!
//! An operation asks its device for an output buffer under an identity made of
//! the position of the call and the length it needs. The first time round the
//! device allocates; when the same sequence of calls is replayed with the
//! counter set back, every call is handed the allocation it was handed before.
//!
//! The host device keeps its memory itself and is complete here. Of a CUDA or
//! OpenCL device the crate keeps the books: what is cached, compiled and
//! recorded. Whoever drives such a device allocates and frees as the books
//! tell him.
pub mod autograd;
pub mod buffer;
pub mod cache;
pub mod count;
pub mod devices;
pub mod error;
pub mod flag;
pub mod graph;
pub mod host;
pub mod ledger;
pub mod number;
pub mod op_traits;
pub mod raw;
pub mod replay;
pub mod unified;

pub use autograd::{GradFn, Gradients, Seed, Tape, UnaryGradFn};
pub use buffer::{Buffer, CPUPtr, Num};
pub use cache::{Cache, CacheEntry};
pub use count::{Counter, Ident};
pub use devices::{
    alloc_request, chosen_device, cl_cached, construct_buffer, constructed, cpu_cached, cu_cached,
    ew_op, fn_cache, to_unified, CudaCache,
    CudaPtr, KernelCacheCL, KernelCacheCU, Mem, OpenCL, PtrBooks, RawCL, RawCUBuf, CPU, CUDA,
};
pub use error::DeviceError;
pub use flag::AllocFlag;
pub use graph::{Deps, Graph, Node};
pub use host::HostMemory;
pub use number::Number;
pub use op_traits::{
    ApplyFunction, CacheBuf, ClearBuf, CloneBuf, Device, DeviceSpec, Deviceless, DevicelessAble,
    Read, UnaryElementWise, UnaryGrad, VecRead, WriteBuf,
};
pub use raw::{Alloc, RawInfo};
pub use unified::UnifiedToggle;
