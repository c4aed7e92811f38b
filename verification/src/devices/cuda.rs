use vstd::prelude::*;
use std::collections::HashMap;
use crate::buffer::Buffer;
use crate::cache::{after_miss, backed, hit, kept, CacheEntry};
use crate::count::{Counter, Ident};
use crate::devices::kernels::{distinct, find, SourceTable};
use crate::devices::ptrs::PtrBooks;
use crate::raw::{released, retained, RawInfo};
use crate::error::DeviceError;
use crate::flag::AllocFlag;
use crate::graph::{Deps, Graph, Node};

verus! {

/// Ordinal of a CUDA device, as the driver numbers them.
#[derive(Clone, Copy, Debug, PartialEq, Eq, Structural)]
pub struct CudaIntDevice(pub i32);

/// Handle of a CUDA context, as the driver gave it.
#[derive(Clone, Copy, Debug, PartialEq, Eq, Structural)]
pub struct Context(pub u64);

/// Handle of a CUDA stream, as the driver gave it.
#[derive(Clone, Copy, Debug, PartialEq, Eq, Structural)]
pub struct Stream(pub u64);

/// Handle of a cuBLAS instance, as the library gave it.
#[derive(Clone, Copy, Debug, PartialEq, Eq, Structural)]
pub struct CublasHandle(pub u64);

/// Handle of a loaded module, as the driver gave it.
#[derive(Clone, Copy, Debug, PartialEq, Eq, Structural)]
pub struct Module(pub u64);

/// Handle of a function in a loaded module, as the driver gave it.
#[derive(Clone, Copy, Debug, PartialEq, Eq, Structural)]
pub struct FnHandle(pub u64);

/// A pointer into the memory of a CUDA device.
#[derive(Clone, Copy, Debug, PartialEq, Eq, Structural, Hash)]
pub struct CudaPtr(pub u64);

/// What a buffer of a CUDA device points with.
#[derive(Clone, Copy, Debug, PartialEq, Eq, Structural)]
pub struct CUDAPtr {
    pub ptr: u64,
    pub len: usize,
    pub flag: AllocFlag,
}

/// What the cache of a CUDA device has put out of a slot for good: a device
/// pointer without a holder, which is the caller's to free.
#[derive(Clone, Copy, Debug, PartialEq, Eq, Structural)]
pub struct RawCUBuf {
    /// The device pointer of the allocation.
    pub ptr: u64,
    /// Number of elements of the allocation.
    pub len: usize,
    /// Index of the graph node recorded for it, if one was.
    pub node: Option<usize>,
}

/// The entry as what is to be freed.
pub open spec fn cu_raw(entry: CacheEntry) -> RawCUBuf {
    RawCUBuf { ptr: entry.handle, len: entry.len, node: entry.node }
}

/// The buffer that the cache hands out for `entry`, drawn under `ident`.
pub open spec fn cu_buffer<T>(entry: CacheEntry, ident: Ident, buf: Buffer<T, CUDAPtr>) -> bool {
    &&& buf.raw() == (CUDAPtr { ptr: entry.handle, len: entry.len, flag: AllocFlag::Cache })
    &&& buf.slot() == Some(ident)
    &&& buf.graph_node() == entry.node
}

/// The cache of a CUDA device, and the count of the holders of its pointers.
///
/// It keeps the books only. The device memory behind a pointer is allocated
/// and freed by whoever drives the device: a miss is answered by him with a
/// fresh pointer, and he is told when a pointer has lost its last holder.
pub struct CudaCache {
    books: PtrBooks,
}

impl CudaCache {
    /// The filled slots.
    pub closed spec fn slots(&self) -> Map<u64, CacheEntry> {
        self.books.slots()
    }

    /// The pointers that are alive, each with its length and the number of
    /// its holders.
    pub closed spec fn live(&self) -> Map<u64, RawInfo> {
        self.books.live()
    }

    pub closed spec fn wf(&self) -> bool {
        self.books.wf()
    }

    /// What holds of a cache in order: it keeps live pointers only, under
    /// their length, and every live pointer has a holder.
    pub proof fn lemma_wf(&self)
        requires
            self.wf(),
        ensures
            backed(self.slots(), self.live()),
            forall|p: u64| #[trigger] self.live().contains_key(p) ==> self.live()[p].refs >= 1,
    {
        self.books.lemma_wf();
    }

    /// Whether a buffer can give up its hold on `ptr`.
    pub open spec fn can_release(&self, ptr: u64) -> bool {
        &&& self.live().contains_key(ptr)
        &&& kept(self.slots(), ptr) ==> self.live()[ptr].refs >= 2
    }

    /// What giving up `buf` frees: the pointer of a buffer that owns it, the
    /// pointer of a cached buffer that was its last holder, and nothing of a
    /// buffer that wraps memory of somebody else.
    pub open spec fn frees<T>(&self, buf: &Buffer<T, CUDAPtr>) -> Option<CudaPtr> {
        match buf.raw().flag {
            AllocFlag::Wrapper => None,
            AllocFlag::Owned => Some(CudaPtr(buf.raw().ptr)),
            AllocFlag::Cache => if self.can_release(buf.raw().ptr) && self.live()[buf.raw().ptr].refs
                == 1 {
                Some(CudaPtr(buf.raw().ptr))
            } else {
                None
            },
        }
    }

    /// A cache without entries.
    pub fn new() -> (cache: CudaCache)
        ensures
            cache.wf(),
            cache.slots() == Map::<u64, CacheEntry>::empty(),
            cache.live() == Map::<u64, RawInfo>::empty(),
    {
        CudaCache { books: PtrBooks::new() }
    }

    /// Number of filled slots.
    pub fn len(&self) -> (n: usize)
        ensures
            n == self.slots().len(),
    {
        self.books.len()
    }

    /// Number of holders of `ptr`: 0 where it is not alive.
    pub fn held(&self, ptr: CudaPtr) -> (n: usize)
        ensures
            n == (if self.live().contains_key(ptr.0) {
                self.live()[ptr.0].refs
            } else {
                0
            }),
    {
        self.books.held(ptr.0)
    }

    /// The buffer of `ident`, where its slot holds an allocation of the
    /// length asked for. The buffer is one more holder of the pointer.
    ///
    /// Fails with `InvalidLength` where `ident` asks for no elements, and
    /// with `AllocationError` where the pointer it hits cannot take one more
    /// holder; a failure and a miss change nothing.
    pub fn get<T>(&mut self, ident: Ident) -> (res: Result<Option<Buffer<T, CUDAPtr>>, DeviceError>)
        requires
            old(self).wf(),
        ensures
            final(self).wf(),
            final(self).slots() == old(self).slots(),
            res is Err <==> ident.len == 0 || (hit(old(self).slots(), ident) && old(self).live()[old(self).slots()[ident.count].handle].refs == usize::MAX),
            res matches Err(e) ==> {
                &&& e == (if ident.len == 0 {
                    DeviceError::InvalidLength
                } else {
                    DeviceError::AllocationError
                })
                &&& final(self).live() == old(self).live()
            },
            res matches Ok(found) ==> {
                &&& found is Some <==> hit(old(self).slots(), ident)
                &&& found matches Some(buf) ==> cu_buffer(old(self).slots()[ident.count], ident, buf)
                &&& final(self).live() == (if hit(old(self).slots(), ident) {
                    retained(old(self).live(), old(self).slots()[ident.count].handle)
                } else {
                    old(self).live()
                })
            },
    {
        match self.books.fetch(ident) {
            Ok(Some(entry)) => Ok(
                Some(
                    Buffer::from_parts(
                        CUDAPtr { ptr: entry.handle, len: entry.len, flag: AllocFlag::Cache },
                        Some(ident),
                        entry.node,
                    ),
                ),
            ),
            Ok(None) => Ok(None),
            Err(e) => Err(e),
        }
    }

    /// Puts the allocation at `ptr`, which the driver has just made for
    /// `ident`, in the slot of `ident`, held by the cache and by the buffer
    /// that is returned. What the slot held before loses the hold of the
    /// cache: it is returned, for the caller to free, where that was its last
    /// holder, and stays alive where a buffer still holds it.
    pub fn add_node<T>(&mut self, ident: Ident, ptr: CudaPtr, node: Option<usize>) -> (added: (
        Buffer<T, CUDAPtr>,
        Option<RawCUBuf>,
    ))
        requires
            old(self).wf(),
            !old(self).live().contains_key(ptr.0),
        ensures
            final(self).wf(),
            final(self).slots() == old(self).slots().insert(
                ident.count,
                CacheEntry { len: ident.len, handle: ptr.0, node },
            ),
            final(self).live() == after_miss(old(self).live(), old(self).slots(), ident, ptr.0),
            cu_buffer(CacheEntry { len: ident.len, handle: ptr.0, node }, ident, added.0),
            added.1 == (if old(self).slots().contains_key(ident.count) && old(self).live()[old(self).slots()[ident.count].handle].refs == 1 {
                Some(cu_raw(old(self).slots()[ident.count]))
            } else {
                None
            }),
    {
        let freed = match self.books.file(ident, ptr.0, node) {
            Some(entry) => Some(RawCUBuf { ptr: entry.handle, len: entry.len, node: entry.node }),
            None => None,
        };
        let buf = Buffer::from_parts(
            CUDAPtr { ptr: ptr.0, len: ident.len, flag: AllocFlag::Cache },
            Some(ident),
            node,
        );
        (buf, freed)
    }

    /// Gives the buffer up. Returns the pointer that is to be freed now, if
    /// one is: see `frees`. A cached pointer that the cache still keeps is
    /// not freed.
    pub fn release<T>(&mut self, buf: Buffer<T, CUDAPtr>) -> (freed: Option<CudaPtr>)
        requires
            old(self).wf(),
        ensures
            final(self).wf(),
            final(self).slots() == old(self).slots(),
            freed == old(self).frees(&buf),
            final(self).live() == (if buf.raw().flag == AllocFlag::Cache && old(self).can_release(
                buf.raw().ptr,
            ) {
                released(old(self).live(), buf.raw().ptr)
            } else {
                old(self).live()
            }),
    {
        match buf.ptr().flag {
            AllocFlag::Wrapper => None,
            AllocFlag::Owned => Some(CudaPtr(buf.ptr().ptr)),
            AllocFlag::Cache => {
                if self.books.release(buf.ptr().ptr) {
                    Some(CudaPtr(buf.ptr().ptr))
                } else {
                    None
                }
            },
        }
    }

    /// Empties the cache and hands out every pointer that was alive, with
    /// its length and the number of holders it had: they are the caller's to
    /// free.
    pub fn take_all(&mut self) -> (taken: HashMap<u64, RawInfo>)
        ensures
            final(self).wf(),
            final(self).slots() == Map::<u64, CacheEntry>::empty(),
            final(self).live() == Map::<u64, RawInfo>::empty(),
            taken@ == old(self).live(),
    {
        self.books.take_all()
    }
}

/// The kernels that were compiled for a CUDA device, by their source text: one
/// for each source text.
pub struct KernelCacheCU {
    kernels: SourceTable<FnHandle>,
}

impl View for KernelCacheCU {
    type V = Seq<(String, FnHandle)>;

    closed spec fn view(&self) -> Seq<(String, FnHandle)> {
        self.kernels@
    }
}

impl KernelCacheCU {
    /// No source text is filed twice.
    pub open spec fn wf(&self) -> bool {
        distinct(self@)
    }

    /// A cache without kernels.
    pub fn new() -> (cache: KernelCacheCU)
        ensures
            cache@ == Seq::<(String, FnHandle)>::empty(),
            cache.wf(),
    {
        KernelCacheCU { kernels: SourceTable::new() }
    }

    /// Number of kernels.
    pub fn len(&self) -> (n: usize)
        ensures
            n == self@.len(),
    {
        self.kernels.len()
    }

    /// The kernel that was compiled from `src`, if one was.
    pub fn kernel(&self, src: &str) -> (found: Option<FnHandle>)
        requires
            self.wf(),
        ensures
            found == find(self@, src@),
    {
        self.kernels.get(src)
    }

    /// Files `function` as the kernel compiled from `src`, in place of the
    /// kernel that was filed for `src` before. The cache grows where none
    /// was.
    pub fn insert(&mut self, src: &str, function: FnHandle)
        requires
            old(self).wf(),
        ensures
            final(self).wf(),
            final(self)@.len() == old(self)@.len() + (if find(old(self)@, src@) is None {
                1int
            } else {
                0int
            }),
            forall|other: Seq<char>|
                #[trigger] find(final(self)@, other) == (if other == src@ {
                    Some(function)
                } else {
                    find(old(self)@, other)
                }),
    {
        self.kernels.put(src, function);
    }
}

/// A CUDA device: the handles that the driver gave for it, and the books of
/// its allocations, kernels and buffers.
pub struct CUDA {
    cache: CudaCache,
    kernel_cache: KernelCacheCU,
    modules: Vec<Module>,
    graph: Graph,
    device: CudaIntDevice,
    ctx: Context,
    stream: Stream,
    handle: CublasHandle,
}

impl CUDA {
    /// The device behind the handles that the driver gave for it, with empty
    /// books.
    pub fn new(device: CudaIntDevice, ctx: Context, stream: Stream, handle: CublasHandle) -> (cuda:
        CUDA)
        ensures
            cuda.slots() == Map::<u64, CacheEntry>::empty(),
            cuda.live() == Map::<u64, RawInfo>::empty(),
            cuda.kernels() == Seq::<(String, FnHandle)>::empty(),
            cuda.loaded() == Seq::<Module>::empty(),
            cuda.nodes() == Seq::<Node>::empty(),
            cuda.wf(),
            cuda.handles() == (device, ctx, stream, handle),
    {
        CUDA {
            cache: CudaCache::new(),
            kernel_cache: KernelCacheCU::new(),
            modules: Vec::new(),
            graph: Graph::new(),
            device,
            ctx,
            stream,
            handle,
        }
    }

    /// The filled slots of the cache.
    pub closed spec fn slots(&self) -> Map<u64, CacheEntry> {
        self.cache.slots()
    }

    /// The pointers that are alive, each with its length and the number of
    /// its holders.
    pub closed spec fn live(&self) -> Map<u64, RawInfo> {
        self.cache.live()
    }

    /// The compiled kernels by their source text.
    pub closed spec fn kernels(&self) -> Seq<(String, FnHandle)> {
        self.kernel_cache@
    }

    /// The loaded modules.
    pub closed spec fn loaded(&self) -> Seq<Module> {
        self.modules@
    }

    /// The nodes of the graph.
    pub closed spec fn nodes(&self) -> Seq<Node> {
        self.graph@
    }

    /// The books are in order.
    pub closed spec fn wf(&self) -> bool {
        &&& self.graph.wf()
        &&& self.cache.wf()
        &&& self.kernel_cache.wf()
    }

    /// What holds of a device in order: the cache keeps live pointers only,
    /// under their length; every live pointer has a holder; no source text
    /// has two kernels.
    pub proof fn lemma_wf(&self)
        requires
            self.wf(),
        ensures
            backed(self.slots(), self.live()),
            forall|p: u64| #[trigger] self.live().contains_key(p) ==> self.live()[p].refs >= 1,
            distinct(self.kernels()),
    {
        self.cache.lemma_wf();
    }

    /// The same books are shown.
    pub open spec fn same_books(&self, before: &CUDA) -> bool {
        &&& self.slots() == before.slots()
        &&& self.live() == before.live()
        &&& self.kernels() == before.kernels()
        &&& self.loaded() == before.loaded()
        &&& self.nodes() == before.nodes()
        &&& self.handles() == before.handles()
    }

    /// Whether a buffer can give up its hold on `ptr`.
    pub open spec fn can_release(&self, ptr: u64) -> bool {
        &&& self.live().contains_key(ptr)
        &&& kept(self.slots(), ptr) ==> self.live()[ptr].refs >= 2
    }

    /// What giving up `buf` frees: the pointer of a buffer that owns it, the
    /// pointer of a cached buffer that was its last holder, and nothing of a
    /// buffer that wraps memory of somebody else.
    pub open spec fn frees<T>(&self, buf: &Buffer<T, CUDAPtr>) -> Option<CudaPtr> {
        match buf.raw().flag {
            AllocFlag::Wrapper => None,
            AllocFlag::Owned => Some(CudaPtr(buf.raw().ptr)),
            AllocFlag::Cache => if self.can_release(buf.raw().ptr) && self.live()[buf.raw().ptr].refs
                == 1 {
                Some(CudaPtr(buf.raw().ptr))
            } else {
                None
            },
        }
    }

    /// The cache of the device.
    pub fn cache(&self) -> (cache: &CudaCache)
        ensures
            cache.slots() == self.slots(),
            cache.live() == self.live(),
            self.wf() ==> cache.wf(),
    {
        &self.cache
    }

    /// The kernels of the device.
    pub fn kernel_cache(&self) -> (cache: &KernelCacheCU)
        ensures
            cache@ == self.kernels(),
    {
        &self.kernel_cache
    }

    /// The graph of the device.
    pub fn graph(&self) -> (graph: &Graph)
        ensures
            graph@ == self.nodes(),
    {
        &self.graph
    }

    /// The modules that were loaded for the device.
    pub fn modules(&self) -> (modules: &Vec<Module>)
        ensures
            modules@ == self.loaded(),
    {
        &self.modules
    }

    /// The handles of the device, its context, its stream and its cuBLAS
    /// instance.
    pub closed spec fn handles(&self) -> (CudaIntDevice, Context, Stream, CublasHandle) {
        (self.device, self.ctx, self.stream, self.handle)
    }

    pub fn device(&self) -> (device: &CudaIntDevice)
        ensures
            *device == self.handles().0,
    {
        &self.device
    }

    pub fn ctx(&self) -> (ctx: &Context)
        ensures
            *ctx == self.handles().1,
    {
        &self.ctx
    }

    pub fn handle(&self) -> (handle: &CublasHandle)
        ensures
            *handle == self.handles().3,
    {
        &self.handle
    }

    pub fn stream(&self) -> (stream: &Stream)
        ensures
            *stream == self.handles().2,
    {
        &self.stream
    }

    /// Number of holders of `ptr`: 0 where it is not alive.
    pub fn held(&self, ptr: CudaPtr) -> (n: usize)
        ensures
            n == (if self.live().contains_key(ptr.0) {
                self.live()[ptr.0].refs
            } else {
                0
            }),
    {
        self.cache.held(ptr)
    }

    /// What a buffer points with that owns, or wraps, the `len` elements at
    /// `ptr`, memory that the driver has made outside the cache.
    pub fn owned_ptr(&self, len: usize, flag: AllocFlag, ptr: CudaPtr) -> (made: CUDAPtr)
        requires
            len > 0,
        ensures
            made == (CUDAPtr { ptr: ptr.0, len, flag }),
    {
        CUDAPtr { ptr: ptr.0, len, flag }
    }

    /// Files the function `function` of the freshly loaded `module` as the
    /// kernel compiled from `src`, in place of the kernel that was filed for
    /// `src` before, and keeps the module.
    pub fn add_kernel(&mut self, src: &str, module: Module, function: FnHandle)
        requires
            old(self).wf(),
        ensures
            final(self).wf(),
            final(self).loaded() == old(self).loaded().push(module),
            final(self).kernels().len() == old(self).kernels().len() + (if find(
                old(self).kernels(),
                src@,
            ) is None {
                1int
            } else {
                0int
            }),
            forall|other: Seq<char>|
                #[trigger] find(final(self).kernels(), other) == (if other == src@ {
                    Some(function)
                } else {
                    find(old(self).kernels(), other)
                }),
            final(self).slots() == old(self).slots(),
            final(self).live() == old(self).live(),
            final(self).nodes() == old(self).nodes(),
            final(self).handles() == old(self).handles(),
    {
        self.modules.push(module);
        self.kernel_cache.insert(src, function);
    }

    /// Takes the allocation at `ptr`, which the driver has just made for
    /// `ident` after `cu_cached` missed, into the cache, as a leaf of the
    /// graph, and advances the counter. The pointer is held by the cache and
    /// by the buffer that is returned. What the slot held before loses the
    /// hold of the cache: it is returned, for the caller to free, where that
    /// was its last holder, and stays alive where a buffer still holds it.
    pub fn allocated<T>(&mut self, counter: &mut Counter, ident: Ident, ptr: CudaPtr) -> (added: (
        Buffer<T, CUDAPtr>,
        Option<RawCUBuf>,
    ))
        requires
            old(self).wf(),
            old(counter)@ < u64::MAX,
            !old(self).live().contains_key(ptr.0),
        ensures
            final(self).wf(),
            final(self).nodes() == old(self).nodes().push(
                Node { idx: old(self).nodes().len() as usize, deps: Deps::Leaf, len: ident.len },
            ),
            final(self).slots() == old(self).slots().insert(
                ident.count,
                CacheEntry {
                    len: ident.len,
                    handle: ptr.0,
                    node: Some(old(self).nodes().len() as usize),
                },
            ),
            final(self).live() == after_miss(old(self).live(), old(self).slots(), ident, ptr.0),
            cu_buffer(final(self).slots()[ident.count], ident, added.0),
            added.1 == (if old(self).slots().contains_key(ident.count) && old(self).live()[old(self).slots()[ident.count].handle].refs == 1 {
                Some(cu_raw(old(self).slots()[ident.count]))
            } else {
                None
            }),
            final(counter)@ == old(counter)@ + 1,
            final(self).loaded() == old(self).loaded(),
            final(self).kernels() == old(self).kernels(),
            final(self).handles() == old(self).handles(),
    {
        let node = self.graph.add_leaf(ident.len);
        let added = self.cache.add_node(ident, ptr, Some(node.idx));
        counter.bump_count();
        added
    }

    /// Gives the buffer up. Returns the pointer that is to be freed now, if
    /// one is: see `frees`. A cached pointer that the cache still keeps is
    /// not freed, and neither is one that another buffer still holds.
    pub fn release<T>(&mut self, buf: Buffer<T, CUDAPtr>) -> (freed: Option<CudaPtr>)
        requires
            old(self).wf(),
        ensures
            final(self).wf(),
            freed == old(self).frees(&buf),
            final(self).live() == (if buf.raw().flag == AllocFlag::Cache && old(self).can_release(
                buf.raw().ptr,
            ) {
                released(old(self).live(), buf.raw().ptr)
            } else {
                old(self).live()
            }),
            final(self).slots() == old(self).slots(),
            final(self).kernels() == old(self).kernels(),
            final(self).loaded() == old(self).loaded(),
            final(self).nodes() == old(self).nodes(),
            final(self).handles() == old(self).handles(),
    {
        self.cache.release(buf)
    }

    /// Empties the cache for the teardown of the device, and hands out every
    /// pointer that was alive, with its length and the number of holders it
    /// had: they are the caller's to free.
    pub fn reset(&mut self) -> (taken: HashMap<u64, RawInfo>)
        requires
            old(self).wf(),
        ensures
            final(self).wf(),
            taken@ == old(self).live(),
            final(self).slots() == Map::<u64, CacheEntry>::empty(),
            final(self).live() == Map::<u64, RawInfo>::empty(),
            final(self).kernels() == old(self).kernels(),
            final(self).loaded() == old(self).loaded(),
            final(self).nodes() == old(self).nodes(),
            final(self).handles() == old(self).handles(),
    {
        self.cache.take_all()
    }
}

/// The answer of the cache of a CUDA device to a request.
pub enum CuCached<T> {
    /// The slot held the buffer, which is one more holder of its pointer.
    Hit(Buffer<T, CUDAPtr>),
    /// The slot holds nothing of the length asked for: the driver is to
    /// allocate for this identity, and `CUDA::allocated` to take the pointer.
    Miss(Ident),
}

/// Asks the cache of `device` for a buffer of `len` elements under the
/// identity at the counter. On a hit the pointer in the slot gains a holder
/// and the counter advances.
///
/// Fails with `InvalidLength` where `len` is 0, and with `AllocationError`
/// where the pointer it hits cannot take one more holder; a failure and a
/// miss change nothing.
pub fn cu_cached<T>(device: &mut CUDA, counter: &mut Counter, len: usize) -> (res: Result<
    CuCached<T>,
    DeviceError,
>)
    requires
        old(device).wf(),
        old(counter)@ < u64::MAX,
    ensures
        final(device).wf(),
        final(device).slots() == old(device).slots(),
        final(device).kernels() == old(device).kernels(),
        final(device).loaded() == old(device).loaded(),
        final(device).nodes() == old(device).nodes(),
        final(device).handles() == old(device).handles(),
        res is Err <==> len == 0 || (hit(old(device).slots(), Ident { count: old(counter)@, len })
            && old(device).live()[old(device).slots()[old(counter)@].handle].refs == usize::MAX),
        res matches Err(e) ==> {
            &&& e == (if len == 0 {
                DeviceError::InvalidLength
            } else {
                DeviceError::AllocationError
            })
            &&& final(counter)@ == old(counter)@
            &&& final(device).live() == old(device).live()
        },
        res matches Ok(CuCached::Hit(buf)) ==> {
            &&& hit(old(device).slots(), Ident { count: old(counter)@, len })
            &&& cu_buffer(
                old(device).slots()[old(counter)@],
                Ident { count: old(counter)@, len },
                buf,
            )
            &&& final(device).live() == retained(
                old(device).live(),
                old(device).slots()[old(counter)@].handle,
            )
            &&& final(counter)@ == old(counter)@ + 1
        },
        res matches Ok(CuCached::Miss(ident)) ==> {
            &&& !hit(old(device).slots(), ident)
            &&& ident == (Ident { count: old(counter)@, len })
            &&& final(counter)@ == old(counter)@
            &&& final(device).live() == old(device).live()
        },
{
    let ident = counter.peek_ident(len);
    match device.cache.get(ident) {
        Ok(Some(buf)) => {
            counter.bump_count();
            Ok(CuCached::Hit(buf))
        },
        Ok(None) => Ok(CuCached::Miss(ident)),
        Err(e) => Err(e),
    }
}

/// The kernel that was compiled from `src` for `device`, if one was.
pub fn fn_cache(device: &CUDA, src: &str) -> (found: Option<FnHandle>)
    requires
        device.wf(),
    ensures
        found == find(device.kernels(), src@),
{
    device.kernel_cache.kernel(src)
}

} // verus!
