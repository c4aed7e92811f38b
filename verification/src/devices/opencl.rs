use vstd::prelude::*;
use std::collections::HashMap;
use crate::buffer::{Buffer, CPUPtr};
use crate::cache::{after_miss, backed, hit, kept, CacheEntry};
use crate::count::{Counter, Ident};
use crate::devices::kernels::{distinct, find, SourceTable};
use crate::devices::ptrs::PtrBooks;
use crate::raw::{released, retained, RawInfo};
use crate::error::DeviceError;
use crate::flag::AllocFlag;
use crate::graph::{Deps, Graph, Node};

verus! {

/// Handle of an OpenCL memory object, and whether the holder of this value is
/// the one to release the object.
#[derive(Debug, PartialEq, Eq, Structural)]
pub struct Mem {
    pub ptr: u64,
    pub owner: bool,
}

impl Mem {
    /// The handle `ptr`, to be released by the holder of the value.
    pub fn new(ptr: u64) -> (mem: Mem)
        ensures
            mem == (Mem { ptr, owner: true }),
    {
        Mem { ptr, owner: true }
    }

    /// A second value for the same memory object, whose holder is not to
    /// release it.
    pub fn as_cloned(&self) -> (mem: Mem)
        ensures
            mem == (Mem { ptr: self.ptr, owner: false }),
    {
        Mem { ptr: self.ptr, owner: false }
    }

    /// A second value for the same memory object, which takes on the duty to
    /// release it if this value had it. Where this value had no such duty the
    /// second has none either: a memory object is released once, by the one
    /// value that carries the duty, and a value cannot hand on what it does
    /// not carry.
    pub fn as_cloned_no_drop(&mut self) -> (mem: Mem)
        ensures
            mem == (Mem { ptr: old(self).ptr, owner: old(self).owner }),
            *final(self) == (Mem { ptr: old(self).ptr, owner: false }),
    {
        let owner = self.owner;
        self.owner = false;
        Mem { ptr: self.ptr, owner }
    }
}

/// Handle of a compiled OpenCL kernel, as the driver gave it.
#[derive(Clone, Copy, Debug, PartialEq, Eq, Structural)]
pub struct Kernel(pub u64);

/// The kernels that were compiled for an OpenCL device, by their source text:
/// one for each source text.
pub struct KernelCacheCL {
    kernel_cache: SourceTable<Kernel>,
}

impl View for KernelCacheCL {
    type V = Seq<(String, Kernel)>;

    closed spec fn view(&self) -> Seq<(String, Kernel)> {
        self.kernel_cache@
    }
}

impl KernelCacheCL {
    /// No source text is filed twice.
    pub open spec fn wf(&self) -> bool {
        distinct(self@)
    }

    /// A cache without kernels.
    pub fn new() -> (cache: KernelCacheCL)
        ensures
            cache@ == Seq::<(String, Kernel)>::empty(),
            cache.wf(),
    {
        KernelCacheCL { kernel_cache: SourceTable::new() }
    }

    /// Number of kernels.
    pub fn len(&self) -> (n: usize)
        ensures
            n == self@.len(),
    {
        self.kernel_cache.len()
    }

    /// The kernel that was compiled from `src`, if one was.
    pub fn kernel_cache(&self, src: &str) -> (found: Option<Kernel>)
        requires
            self.wf(),
        ensures
            found == find(self@, src@),
    {
        self.kernel_cache.get(src)
    }

    /// Files `kernel` as the kernel compiled from `src`, in place of the
    /// kernel that was filed for `src` before. The cache grows where none
    /// was.
    pub fn insert(&mut self, src: &str, kernel: Kernel)
        requires
            old(self).wf(),
        ensures
            final(self).wf(),
            final(self)@.len() == old(self)@.len() + (if find(old(self)@, src@) is None {
                1int
            } else {
                0int
            }),
            forall|other: Seq<char>|
                #[trigger] find(final(self)@, other) == (if other == src@ {
                    Some(kernel)
                } else {
                    find(old(self)@, other)
                }),
    {
        self.kernel_cache.put(src, kernel);
    }
}

impl Default for KernelCacheCL {
    fn default() -> (cache: KernelCacheCL)
        ensures
            cache@ == Seq::<(String, Kernel)>::empty(),
            cache.wf(),
    {
        KernelCacheCL::new()
    }
}

/// What a buffer of an OpenCL device points with: the memory object, and,
/// where the memory is unified, what names its host side: the handle of the
/// host allocation that the object was made over, or the address at which the
/// driver mapped the object.
#[derive(Clone, Copy, Debug, PartialEq, Eq, Structural)]
pub struct CLPtr {
    pub ptr: u64,
    pub host_ptr: Option<u64>,
    pub len: usize,
    pub flag: AllocFlag,
}

/// What the cache of an OpenCL device has put out of a slot for good: a
/// memory object without a holder, which is the caller's to release.
#[derive(Clone, Copy, Debug, PartialEq, Eq, Structural)]
pub struct RawCL {
    /// The memory object.
    pub ptr: u64,
    /// What names the host side of the memory, where it is unified.
    pub host_ptr: Option<u64>,
    /// Number of elements.
    pub len: usize,
    /// Index of the graph node recorded for it, if one was.
    pub node: Option<usize>,
}

/// The host side that `hosts` names for the memory object `ptr`.
pub open spec fn host_of(hosts: Map<u64, u64>, ptr: u64) -> Option<u64> {
    if hosts.contains_key(ptr) {
        Some(hosts[ptr])
    } else {
        None
    }
}

/// The host sides after the memory object `ptr` was filed with `host_ptr`.
pub open spec fn hosts_with(hosts: Map<u64, u64>, ptr: u64, host_ptr: Option<u64>) -> Map<u64, u64> {
    match host_ptr {
        Some(host) => hosts.insert(ptr, host),
        None => hosts.remove(ptr),
    }
}

/// The entry as what is to be released.
pub open spec fn cl_raw(entry: CacheEntry, hosts: Map<u64, u64>) -> RawCL {
    RawCL {
        ptr: entry.handle,
        host_ptr: host_of(hosts, entry.handle),
        len: entry.len,
        node: entry.node,
    }
}

/// The buffer that stands for the slot `entry`, under the flag `flag`.
pub open spec fn cl_buffer<T>(
    entry: CacheEntry,
    hosts: Map<u64, u64>,
    flag: AllocFlag,
    buf: Buffer<T, CLPtr>,
) -> bool {
    &&& buf.raw() == (CLPtr {
        ptr: entry.handle,
        host_ptr: host_of(hosts, entry.handle),
        len: entry.len,
        flag,
    })
    &&& buf.graph_node() == entry.node
}

/// The books of an OpenCL device: its cache of allocations with the count of
/// the holders of every memory object, its kernels and the graph of its
/// buffers. The memory objects behind them are made and released by whoever
/// drives the device.
pub struct OpenCL {
    kernel_cache: KernelCacheCL,
    books: PtrBooks,
    hosts: HashMap<u64, u64>,
    graph: Graph,
    unified_mem: bool,
}

/// What is to be done to have a host buffer as a buffer of an OpenCL device
/// with unified memory.
pub enum Construct<T> {
    /// The buffer was made unified before: here it is, one more holder of
    /// its memory object.
    Cached(Buffer<T, CLPtr>),
    /// The driver is to make a memory object over the host allocation;
    /// `constructed` takes its answer with the node that was recorded.
    Create(Node),
}

impl OpenCL {
    /// The filled slots of the cache.
    pub closed spec fn slots(&self) -> Map<u64, CacheEntry> {
        self.books.slots()
    }

    /// The memory objects that are alive, each with its length and the
    /// number of its holders.
    pub closed spec fn live(&self) -> Map<u64, RawInfo> {
        self.books.live()
    }

    /// What names the host side of the memory objects that have one.
    pub closed spec fn hosts(&self) -> Map<u64, u64> {
        self.hosts@
    }

    /// The compiled kernels by their source text.
    pub closed spec fn kernels(&self) -> Seq<(String, Kernel)> {
        self.kernel_cache@
    }

    /// The nodes of the graph.
    pub closed spec fn nodes(&self) -> Seq<Node> {
        self.graph@
    }

    /// Whether the device shares its memory with the host.
    pub closed spec fn unified(&self) -> bool {
        self.unified_mem
    }

    /// The books are in order.
    pub closed spec fn wf(&self) -> bool {
        &&& self.graph.wf()
        &&& self.books.wf()
        &&& self.kernel_cache.wf()
    }

    /// What holds of books in order: the cache keeps live memory objects
    /// only, under their length; every live memory object has a holder; no
    /// source text has two kernels.
    pub proof fn lemma_wf(&self)
        requires
            self.wf(),
        ensures
            backed(self.slots(), self.live()),
            forall|p: u64| #[trigger] self.live().contains_key(p) ==> self.live()[p].refs >= 1,
            distinct(self.kernels()),
    {
        self.books.lemma_wf();
    }

    /// Whether a buffer can give up its hold on `ptr`.
    pub open spec fn can_release(&self, ptr: u64) -> bool {
        &&& self.live().contains_key(ptr)
        &&& kept(self.slots(), ptr) ==> self.live()[ptr].refs >= 2
    }

    /// What giving up `buf` releases: the memory object of a buffer that
    /// owns it, the memory object of a cached buffer that was its last
    /// holder, and nothing of a buffer that wraps memory of somebody else.
    pub open spec fn frees<T>(&self, buf: &Buffer<T, CLPtr>) -> Option<u64> {
        match buf.raw().flag {
            AllocFlag::Wrapper => None,
            AllocFlag::Owned => Some(buf.raw().ptr),
            AllocFlag::Cache => if self.can_release(buf.raw().ptr) && self.live()[buf.raw().ptr].refs
                == 1 {
                Some(buf.raw().ptr)
            } else {
                None
            },
        }
    }

    /// The books of a device that was just opened.
    pub fn new(unified_mem: bool) -> (device: OpenCL)
        ensures
            device.wf(),
            device.slots() == Map::<u64, CacheEntry>::empty(),
            device.live() == Map::<u64, RawInfo>::empty(),
            device.hosts() == Map::<u64, u64>::empty(),
            device.kernels() == Seq::<(String, Kernel)>::empty(),
            device.nodes() == Seq::<Node>::empty(),
            device.unified() == unified_mem,
    {
        OpenCL {
            kernel_cache: KernelCacheCL::new(),
            books: PtrBooks::new(),
            hosts: HashMap::new(),
            graph: Graph::new(),
            unified_mem,
        }
    }

    /// Whether the device shares its memory with the host.
    pub fn unified_mem(&self) -> (b: bool)
        ensures
            b == self.unified(),
    {
        self.unified_mem
    }

    /// Has the device treated as sharing its memory with the host, or as not
    /// sharing it, from now on.
    pub fn set_unified_mem(&mut self, unified_mem: bool)
        ensures
            final(self).unified() == unified_mem,
            final(self).slots() == old(self).slots(),
            final(self).live() == old(self).live(),
            final(self).hosts() == old(self).hosts(),
            final(self).kernels() == old(self).kernels(),
            final(self).nodes() == old(self).nodes(),
            final(self).wf() == old(self).wf(),
    {
        self.unified_mem = unified_mem;
    }

    /// The kernels of the device.
    pub fn kernel_cache(&self) -> (cache: &KernelCacheCL)
        ensures
            cache@ == self.kernels(),
    {
        &self.kernel_cache
    }

    /// Files `kernel` as the kernel compiled from `src`, in place of the
    /// kernel that was filed for `src` before.
    pub fn add_kernel(&mut self, src: &str, kernel: Kernel)
        requires
            old(self).wf(),
        ensures
            final(self).wf(),
            final(self).kernels().len() == old(self).kernels().len() + (if find(
                old(self).kernels(),
                src@,
            ) is None {
                1int
            } else {
                0int
            }),
            forall|other: Seq<char>|
                #[trigger] find(final(self).kernels(), other) == (if other == src@ {
                    Some(kernel)
                } else {
                    find(old(self).kernels(), other)
                }),
            final(self).slots() == old(self).slots(),
            final(self).live() == old(self).live(),
            final(self).hosts() == old(self).hosts(),
            final(self).nodes() == old(self).nodes(),
            final(self).unified() == old(self).unified(),
    {
        self.kernel_cache.insert(src, kernel);
    }

    /// The graph of the device.
    pub fn graph(&self) -> (graph: &Graph)
        ensures
            graph@ == self.nodes(),
    {
        &self.graph
    }

    /// Number of filled slots of the cache.
    pub fn cache_len(&self) -> (n: usize)
        ensures
            n == self.slots().len(),
    {
        self.books.len()
    }

    /// Number of holders of the memory object `ptr`: 0 where it is not
    /// alive.
    pub fn held(&self, ptr: u64) -> (n: usize)
        ensures
            n == (if self.live().contains_key(ptr) {
                self.live()[ptr].refs
            } else {
                0
            }),
    {
        self.books.held(ptr)
    }

    /// The host side that the books name for the memory object `ptr`.
    fn host(&self, ptr: u64) -> (host: Option<u64>)
        ensures
            host == host_of(self.hosts(), ptr),
    {
        match self.hosts.get(&ptr) {
            Some(host) => Some(*host),
            None => None,
        }
    }

    /// Files the host side of a memory object.
    fn set_host(&mut self, ptr: u64, host_ptr: Option<u64>)
        ensures
            final(self).hosts@ == hosts_with(old(self).hosts@, ptr, host_ptr),
            final(self).books == old(self).books,
            final(self).graph == old(self).graph,
            final(self).kernel_cache == old(self).kernel_cache,
            final(self).unified_mem == old(self).unified_mem,
    {
        match host_ptr {
            Some(host) => {
                self.hosts.insert(ptr, host);
            },
            None => {
                self.hosts.remove(&ptr);
            },
        }
    }

    /// What a buffer points with that owns, or wraps, the `len` elements of
    /// the memory object `cl_ptr`, which the driver has made outside the
    /// cache. `mapped` is where the driver mapped the object for the host; it
    /// counts where the device shares its memory with the host.
    pub fn owned_ptr(&self, len: usize, flag: AllocFlag, cl_ptr: u64, mapped: Option<u64>) -> (ptr:
        CLPtr)
        requires
            len > 0,
        ensures
            ptr == (CLPtr {
                ptr: cl_ptr,
                host_ptr: if self.unified() {
                    mapped
                } else {
                    None
                },
                len,
                flag,
            }),
    {
        CLPtr {
            ptr: cl_ptr,
            host_ptr: if self.unified_mem {
                mapped
            } else {
                None
            },
            len,
            flag,
        }
    }

    /// Files the memory object `cl_ptr`, which the driver has just made for
    /// `ident`, with its host side and its node, held by the cache and by
    /// the buffer that the caller makes of it. Returns what the slot held
    /// before where the cache was its last holder.
    fn file(&mut self, ident: Ident, cl_ptr: u64, host_ptr: Option<u64>, node: Option<usize>) -> (freed:
        Option<RawCL>)
        requires
            old(self).wf(),
            !old(self).live().contains_key(cl_ptr),
        ensures
            final(self).wf(),
            final(self).filed(old(self), ident, cl_ptr, host_ptr, node),
            freed == old(self).put_out(ident),
            final(self).nodes() == old(self).nodes(),
    {
        let freed = match self.books.file(ident, cl_ptr, node) {
            Some(entry) => Some(
                RawCL {
                    ptr: entry.handle,
                    host_ptr: self.host(entry.handle),
                    len: entry.len,
                    node: entry.node,
                },
            ),
            None => None,
        };
        self.set_host(cl_ptr, host_ptr);
        freed
    }

    /// The books after the memory object `cl_ptr` was filed in the slot of
    /// `ident` on the books `before`: the slot holds it, it is alive with two
    /// holders, and what the slot held before has lost the hold of the
    /// cache, and is gone from the live memory objects if that was the last.
    pub open spec fn filed(
        &self,
        before: &OpenCL,
        ident: Ident,
        cl_ptr: u64,
        host_ptr: Option<u64>,
        node: Option<usize>,
    ) -> bool {
        &&& self.slots() == before.slots().insert(
            ident.count,
            CacheEntry { len: ident.len, handle: cl_ptr, node },
        )
        &&& self.live() == after_miss(before.live(), before.slots(), ident, cl_ptr)
        &&& self.hosts() == hosts_with(before.hosts(), cl_ptr, host_ptr)
        &&& self.kernels() == before.kernels()
        &&& self.unified() == before.unified()
    }

    /// What filing a new memory object in the slot of `ident` puts out for
    /// good: what the slot holds, where the cache is its last holder.
    pub open spec fn put_out(&self, ident: Ident) -> Option<RawCL> {
        if self.slots().contains_key(ident.count) && self.live()[self.slots()[ident.count].handle].refs
            == 1 {
            Some(cl_raw(self.slots()[ident.count], self.hosts()))
        } else {
            None
        }
    }

    /// Takes the memory object `cl_ptr`, which the driver has just made for
    /// `ident` after `cl_cached` missed, into the cache, as a leaf of the
    /// graph, and advances the counter. `host_ptr` names the host side of the
    /// object, where the memory is unified. The object is held by the cache
    /// and by the buffer that is returned. What the slot held before loses
    /// the hold of the cache: it is returned, for the caller to release,
    /// where that was its last holder, and stays alive where a buffer still
    /// holds it.
    pub fn allocated<T>(
        &mut self,
        counter: &mut Counter,
        ident: Ident,
        cl_ptr: u64,
        host_ptr: Option<u64>,
    ) -> (added: (Buffer<T, CLPtr>, Option<RawCL>))
        requires
            old(self).wf(),
            old(counter)@ < u64::MAX,
            !old(self).live().contains_key(cl_ptr),
        ensures
            final(self).wf(),
            final(self).nodes() == old(self).nodes().push(
                Node { idx: old(self).nodes().len() as usize, deps: Deps::Leaf, len: ident.len },
            ),
            final(self).filed(
                old(self),
                ident,
                cl_ptr,
                host_ptr,
                Some(old(self).nodes().len() as usize),
            ),
            added.0.raw() == (CLPtr { ptr: cl_ptr, host_ptr, len: ident.len, flag: AllocFlag::Cache }),
            added.0.slot() == Some(ident),
            added.0.graph_node() == Some(old(self).nodes().len() as usize),
            added.1 == old(self).put_out(ident),
            final(counter)@ == old(counter)@ + 1,
    {
        let node = self.graph.add_leaf(ident.len);
        let freed = self.file(ident, cl_ptr, host_ptr, Some(node.idx));
        counter.bump_count();
        let buf = Buffer::from_parts(
            CLPtr { ptr: cl_ptr, host_ptr, len: ident.len, flag: AllocFlag::Cache },
            Some(ident),
            Some(node.idx),
        );
        (buf, freed)
    }

    /// Gives the buffer up. Returns the memory object that is to be released
    /// now, if one is: see `frees`. A cached memory object that the cache
    /// still keeps is not released, and neither is one that another buffer
    /// still holds.
    pub fn release<T>(&mut self, buf: Buffer<T, CLPtr>) -> (freed: Option<u64>)
        requires
            old(self).wf(),
        ensures
            final(self).wf(),
            freed == old(self).frees(&buf),
            final(self).live() == (if buf.raw().flag == AllocFlag::Cache && old(self).can_release(
                buf.raw().ptr,
            ) {
                released(old(self).live(), buf.raw().ptr)
            } else {
                old(self).live()
            }),
            final(self).slots() == old(self).slots(),
            final(self).hosts() == old(self).hosts(),
            final(self).kernels() == old(self).kernels(),
            final(self).nodes() == old(self).nodes(),
            final(self).unified() == old(self).unified(),
    {
        match buf.ptr().flag {
            AllocFlag::Wrapper => None,
            AllocFlag::Owned => Some(buf.ptr().ptr),
            AllocFlag::Cache => {
                if self.books.release(buf.ptr().ptr) {
                    Some(buf.ptr().ptr)
                } else {
                    None
                }
            },
        }
    }

    /// Sets cache, kernels and graph back to empty, and hands out every
    /// memory object that was alive, with its length and the number of
    /// holders it had: they are the caller's to release.
    pub fn reset(&mut self) -> (taken: HashMap<u64, RawInfo>)
        ensures
            final(self).wf(),
            taken@ == old(self).live(),
            final(self).slots() == Map::<u64, CacheEntry>::empty(),
            final(self).live() == Map::<u64, RawInfo>::empty(),
            final(self).hosts() == Map::<u64, u64>::empty(),
            final(self).kernels() == Seq::<(String, Kernel)>::empty(),
            final(self).nodes() == Seq::<Node>::empty(),
            final(self).unified() == old(self).unified(),
    {
        self.kernel_cache = KernelCacheCL::new();
        self.hosts = HashMap::new();
        self.graph = Graph::new();
        self.books.take_all()
    }
}

/// The answer of the cache of an OpenCL device to a request.
pub enum ClCached<T> {
    /// The slot held the buffer, which is one more holder of its memory
    /// object.
    Hit(Buffer<T, CLPtr>),
    /// The slot holds nothing of the length asked for: the driver is to make
    /// a memory object for this identity, and `OpenCL::allocated` to take it.
    Miss(Ident),
}

/// Asks the cache of `device` for a buffer of `len` elements under the
/// identity at the counter. On a hit the memory object in the slot gains a
/// holder and the counter advances.
///
/// Fails with `InvalidLength` where `len` is 0, and with `AllocationError`
/// where the memory object it hits cannot take one more holder; a failure and
/// a miss change nothing.
pub fn cl_cached<T>(device: &mut OpenCL, counter: &mut Counter, len: usize) -> (res: Result<
    ClCached<T>,
    DeviceError,
>)
    requires
        old(device).wf(),
        old(counter)@ < u64::MAX,
    ensures
        final(device).wf(),
        final(device).slots() == old(device).slots(),
        final(device).hosts() == old(device).hosts(),
        final(device).kernels() == old(device).kernels(),
        final(device).nodes() == old(device).nodes(),
        final(device).unified() == old(device).unified(),
        res is Err <==> len == 0 || (hit(old(device).slots(), Ident { count: old(counter)@, len })
            && old(device).live()[old(device).slots()[old(counter)@].handle].refs == usize::MAX),
        res matches Err(e) ==> {
            &&& e == (if len == 0 {
                DeviceError::InvalidLength
            } else {
                DeviceError::AllocationError
            })
            &&& final(counter)@ == old(counter)@
            &&& final(device).live() == old(device).live()
        },
        res matches Ok(ClCached::Hit(buf)) ==> {
            &&& hit(old(device).slots(), Ident { count: old(counter)@, len })
            &&& cl_buffer(
                old(device).slots()[old(counter)@],
                old(device).hosts(),
                AllocFlag::Cache,
                buf,
            )
            &&& buf.slot() == Some(Ident { count: old(counter)@, len })
            &&& final(device).live() == retained(
                old(device).live(),
                old(device).slots()[old(counter)@].handle,
            )
            &&& final(counter)@ == old(counter)@ + 1
        },
        res matches Ok(ClCached::Miss(ident)) ==> {
            &&& !hit(old(device).slots(), ident)
            &&& ident == (Ident { count: old(counter)@, len })
            &&& final(counter)@ == old(counter)@
            &&& final(device).live() == old(device).live()
        },
{
    let ident = counter.peek_ident(len);
    match device.books.fetch(ident) {
        Ok(Some(entry)) => {
            counter.bump_count();
            let host_ptr = device.host(entry.handle);
            Ok(
                ClCached::Hit(
                    Buffer::from_parts(
                        CLPtr { ptr: entry.handle, host_ptr, len: entry.len, flag: AllocFlag::Cache },
                        Some(ident),
                        entry.node,
                    ),
                ),
            )
        },
        Ok(None) => Ok(ClCached::Miss(ident)),
        Err(e) => Err(e),
    }
}

/// Decides how the host buffer `no_drop` becomes a buffer of `device`, a
/// device with unified memory, under the identity at the counter. The counter
/// is left where it is.
///
/// A buffer that owns its allocation is refused with `ConstructError`: the
/// host memory must outlive the unified buffer, so it has to belong to a
/// cache. A buffer without elements is refused with `InvalidLength`. A buffer
/// that was made unified under this identity before is handed
/// out again, from the cache of the device, as one more holder of its memory
/// object; where that object cannot take one more holder the call fails with
/// `AllocationError`. Otherwise the graph records the buffer as made from
/// `deps`, and the answer asks for a memory object.
pub fn construct_buffer<T>(
    device: &mut OpenCL,
    counter: &Counter,
    no_drop: &Buffer<T, CPUPtr>,
    deps: Deps,
) -> (res: Result<Construct<T>, DeviceError>)
    requires
        old(device).wf(),
        deps.below(old(device).nodes().len() as int),
    ensures
        final(device).wf(),
        final(device).slots() == old(device).slots(),
        final(device).hosts() == old(device).hosts(),
        final(device).kernels() == old(device).kernels(),
        final(device).unified() == old(device).unified(),
        res is Err <==> no_drop.raw().flag == AllocFlag::Owned || no_drop.raw().len == 0 || (hit(
            old(device).slots(),
            Ident { count: counter@, len: no_drop.raw().len },
        ) && old(device).live()[old(device).slots()[counter@].handle].refs == usize::MAX),
        res matches Err(e) ==> {
            &&& e == (if no_drop.raw().flag == AllocFlag::Owned {
                DeviceError::ConstructError
            } else if no_drop.raw().len == 0 {
                DeviceError::InvalidLength
            } else {
                DeviceError::AllocationError
            })
            &&& final(device).nodes() == old(device).nodes()
            &&& final(device).live() == old(device).live()
        },
        res matches Ok(Construct::Cached(buf)) ==> {
            &&& hit(old(device).slots(), Ident { count: counter@, len: no_drop.raw().len })
            &&& cl_buffer(
                old(device).slots()[counter@],
                old(device).hosts(),
                no_drop.raw().flag,
                buf,
            )
            &&& buf.slot() == Some(Ident { count: counter@, len: no_drop.raw().len })
            &&& final(device).nodes() == old(device).nodes()
            &&& final(device).live() == retained(
                old(device).live(),
                old(device).slots()[counter@].handle,
            )
        },
        res matches Ok(Construct::Create(node)) ==> {
            &&& !hit(old(device).slots(), Ident { count: counter@, len: no_drop.raw().len })
            &&& node == (Node {
                idx: old(device).nodes().len() as usize,
                deps,
                len: no_drop.raw().len,
            })
            &&& final(device).nodes() == old(device).nodes().push(node)
            &&& final(device).live() == old(device).live()
        },
{
    match no_drop.flag() {
        AllocFlag::Owned => {
            return Err(DeviceError::ConstructError);
        },
        _ => {},
    }
    let ident = counter.peek_ident(no_drop.len());
    match device.books.fetch(ident) {
        Ok(Some(entry)) => {
            let host_ptr = device.host(entry.handle);
            Ok(
                Construct::Cached(
                    Buffer::from_parts(
                        CLPtr { ptr: entry.handle, host_ptr, len: entry.len, flag: no_drop.flag() },
                        Some(ident),
                        entry.node,
                    ),
                ),
            )
        },
        Ok(None) => {
            let node = device.graph.add(no_drop.len(), deps);
            Ok(Construct::Create(node))
        },
        Err(e) => Err(e),
    }
}

/// Files what the driver has answered when it was asked for a memory object
/// over the host allocation of `no_drop`. The counter is left where it is.
///
/// Where the driver has failed, its error is handed on and nothing changes.
/// Where it has made the memory object `p`, the object takes the slot of the
/// identity at the counter, with the node `graph_node` and the host
/// allocation of `no_drop` for its host side, held by the cache and by the
/// buffer that the caller makes of it. What the slot held before loses the
/// hold of the cache: it is returned, for the caller to release, where that
/// was its last holder, and stays alive where a buffer still shares it.
pub fn to_unified<T>(
    device: &mut OpenCL,
    counter: &Counter,
    no_drop: &Buffer<T, CPUPtr>,
    graph_node: Node,
    created: Result<u64, DeviceError>,
) -> (res: Result<(u64, Option<RawCL>), DeviceError>)
    requires
        old(device).wf(),
        created matches Ok(p) ==> !old(device).live().contains_key(p),
    ensures
        final(device).wf(),
        final(device).nodes() == old(device).nodes(),
        match created {
            Err(e) => res == Err::<(u64, Option<RawCL>), DeviceError>(e) && final(device).same_books(old(device)),
            Ok(p) => {
                &&& res == Ok::<(u64, Option<RawCL>), DeviceError>(
                    (
                        p,
                        old(device).put_out(Ident { count: counter@, len: no_drop.raw().len }),
                    ),
                )
                &&& final(device).filed(
                    old(device),
                    Ident { count: counter@, len: no_drop.raw().len },
                    p,
                    Some(no_drop.raw().handle),
                    Some(graph_node.idx),
                )
            },
        },
{
    match created {
        Err(e) => Err(e),
        Ok(p) => {
            let ident = counter.peek_ident(no_drop.len());
            let freed = device.file(ident, p, Some(no_drop.handle()), Some(graph_node.idx));
            Ok((p, freed))
        },
    }
}

/// Finishes what `construct_buffer` began, with what the driver has answered
/// when it was asked for a memory object over the host allocation of
/// `no_drop`: files the answer as `to_unified` does and, where the driver has
/// made the memory object, advances the counter and hands out the unified
/// buffer, with what is the caller's to release.
///
/// Where the driver has failed, its error is handed on, and neither the
/// books nor the counter change.
pub fn constructed<T>(
    device: &mut OpenCL,
    counter: &mut Counter,
    no_drop: &Buffer<T, CPUPtr>,
    graph_node: Node,
    created: Result<u64, DeviceError>,
) -> (res: Result<(Buffer<T, CLPtr>, Option<RawCL>), DeviceError>)
    requires
        old(device).wf(),
        old(counter)@ < u64::MAX,
        created matches Ok(p) ==> !old(device).live().contains_key(p),
    ensures
        final(device).wf(),
        final(device).nodes() == old(device).nodes(),
        res is Err <==> created is Err,
        res matches Err(e) ==> {
            &&& created == Err::<u64, DeviceError>(e)
            &&& final(device).same_books(old(device))
            &&& final(counter)@ == old(counter)@
        },
        res matches Ok(made) ==> {
            &&& created matches Ok(p)
            &&& made.0.raw() == (CLPtr {
                ptr: p,
                host_ptr: Some(no_drop.raw().handle),
                len: no_drop.raw().len,
                flag: AllocFlag::Cache,
            })
            &&& made.0.slot() == Some(Ident { count: old(counter)@, len: no_drop.raw().len })
            &&& made.0.graph_node() == Some(graph_node.idx)
            &&& made.1 == old(device).put_out(Ident { count: old(counter)@, len: no_drop.raw().len })
            &&& final(device).filed(
                old(device),
                Ident { count: old(counter)@, len: no_drop.raw().len },
                p,
                Some(no_drop.raw().handle),
                Some(graph_node.idx),
            )
            &&& final(counter)@ == old(counter)@ + 1
        },
{
    let ident = counter.peek_ident(no_drop.len());
    match to_unified(device, counter, no_drop, graph_node, created) {
        Err(e) => Err(e),
        Ok((ptr, freed)) => {
            counter.bump_count();
            let buf = Buffer::from_parts(
                CLPtr {
                    ptr,
                    host_ptr: Some(no_drop.handle()),
                    len: no_drop.len(),
                    flag: AllocFlag::Cache,
                },
                Some(ident),
                Some(graph_node.idx),
            );
            Ok((buf, freed))
        },
    }
}

impl OpenCL {
    /// The same books are shown.
    pub open spec fn same_books(&self, before: &OpenCL) -> bool {
        &&& self.slots() == before.slots()
        &&& self.live() == before.live()
        &&& self.hosts() == before.hosts()
        &&& self.kernels() == before.kernels()
        &&& self.nodes() == before.nodes()
        &&& self.unified() == before.unified()
    }
}

} // verus!
