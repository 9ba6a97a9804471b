//! Software memory: one allocator behind regions and pools.
//!
//! Allocations live in a software address space (not device VRAM). Each
//! live allocation is tracked by its base address; bytes in use always equal
//! the sum of the live sizes, and freeing an unknown address fails closed.
use super::handle::PackedHandle;
use super::error::{Error, ErrorCategory};
use crate::bytes::{le32, le64, le_u32_at, le_u64_at, zeros};
use crate::isa::error::{IsaError, IsaErrorKind};
use crate::isa::mem::IsaMemory;
use vstd::prelude::*;

verus! {

/// Software pool capacity in bytes.
pub const SOFTGPU_POOL_BYTES: usize = 268435456;

/// Largest single allocation.
pub const SOFTGPU_MAX_ALLOC_BYTES: usize = 67108864;

pub const SOFTGPU_ALLOC_GRANULE: usize = 4096;

pub const SOFTGPU_ALLOC_ALIGNMENT: usize = 256;

/// First address of the software address space.
pub const SOFTGPU_VA_BASE: u64 = 0x1000_0000_0000;

/// `HSA_REGION_SEGMENT_GLOBAL`.
pub const REGION_SEGMENT_GLOBAL: u32 = 0;

/// `HSA_REGION_GLOBAL_FLAG_KERNARG | FINE_GRAINED`.
pub const REGION_FLAGS_FINE_KERNARG: u32 = 3;

/// `HSA_REGION_GLOBAL_FLAG_COARSE_GRAINED`.
pub const REGION_FLAGS_COARSE: u32 = 4;

/// `HSA_AMD_SEGMENT_GLOBAL`.
pub const AMD_SEGMENT_GLOBAL: u32 = 0;

/// `KERNARG_INIT | FINE_GRAINED`.
pub const AMD_POOL_FLAGS_FINE_KERNARG: u32 = 3;

/// `COARSE_GRAINED`.
pub const AMD_POOL_FLAGS_COARSE: u32 = 4;

pub const AMD_POOL_LOCATION_CPU: u32 = 0;

pub const AMD_POOL_LOCATION_GPU: u32 = 1;

#[derive(Debug, Clone, Copy, PartialEq, Eq, Structural)]
pub enum MemoryViewKind {
    RegionFineKernarg,
    RegionCoarse,
    PoolFineHost,
    PoolCoarseDevice,
}

/// A region or pool view onto the allocator.
#[derive(Debug, Clone, Copy)]
pub struct MemorySpace {
    pub handle: PackedHandle,
    pub kind: MemoryViewKind,
    pub agent_handle: PackedHandle,
    pub segment: u32,
    pub global_flags: u32,
    pub size_bytes: usize,
    pub alloc_max_size: usize,
    pub runtime_alloc_allowed: bool,
    pub granule: usize,
    pub alignment: usize,
    pub location: Option<u32>,
}

impl MemorySpace {
    pub fn is_pool(&self) -> (r: bool)
        ensures
            r == (self.kind == MemoryViewKind::PoolFineHost || self.kind == MemoryViewKind::PoolCoarseDevice),
    {
        match self.kind {
            MemoryViewKind::PoolFineHost | MemoryViewKind::PoolCoarseDevice => true,
            _ => false,
        }
    }

    pub fn is_region(&self) -> (r: bool)
        ensures
            r == (self.kind == MemoryViewKind::RegionFineKernarg || self.kind == MemoryViewKind::RegionCoarse),
    {
        match self.kind {
            MemoryViewKind::RegionFineKernarg | MemoryViewKind::RegionCoarse => true,
            _ => false,
        }
    }
}

/// Permission and lifetime metadata of a tracked allocation.
#[derive(Debug, Clone, Copy, PartialEq, Eq, Structural)]
pub struct AllocationMeta {
    pub ptr: u64,
    pub size: usize,
    pub space: PackedHandle,
    pub alignment: usize,
    pub alloc_id: u64,
    pub host_readable: bool,
    pub host_writable: bool,
}

/// A live allocation and its contents.
#[derive(Debug)]
pub struct Allocation {
    pub meta: AllocationMeta,
    pub data: Vec<u8>,
}

#[derive(Debug, Clone, Copy, PartialEq, Eq, Structural)]
pub enum AllocError {
    InvalidArgument,
    InvalidAllocation,
    OutOfResources,
}

/// Allocator with tracked allocations in a software address space.
#[derive(Debug)]
pub struct SoftGpuAllocator {
    pub live: Vec<Allocation>,
    pub bytes_in_use: usize,
    pub capacity: usize,
    pub next_alloc_id: u64,
    pub next_addr: u64,
}

/// Sum of the sizes of `s`.
pub open spec fn sizes_sum(s: Seq<AllocationMeta>) -> nat
    decreases s.len(),
{
    if s.len() == 0 {
        0
    } else {
        sizes_sum(s.drop_last()) + (s.last().size as nat)
    }
}

/// `addr` lies inside allocation `m`.
pub open spec fn covers(m: AllocationMeta, addr: u64) -> bool {
    m.ptr <= addr < m.ptr + m.size
}

/// `value` rounded up to a multiple of `granule` (saturating).
pub open spec fn round_up_spec(value: nat, granule: nat) -> nat {
    if granule <= 1 {
        value
    } else {
        let q = ((value + granule - 1) as nat) / granule;
        if q * granule > usize::MAX {
            usize::MAX as nat
        } else {
            (q * granule) as nat
        }
    }
}

impl SoftGpuAllocator {
    /// Metadata of the live allocations, in allocation order.
    pub open spec fn metas(&self) -> Seq<AllocationMeta> {
        self.live@.map_values(|a: Allocation| a.meta)
    }

    /// Accounting and layout invariants.
    pub open spec fn wf(&self) -> bool {
        &&& self.bytes_in_use == sizes_sum(self.metas())
        &&& self.bytes_in_use <= self.capacity
        &&& forall|i: int| 0 <= i < self.live@.len() ==> (#[trigger] self.live@[i]).data@.len() == self.live@[i].meta.size
        &&& forall|i: int| 0 <= i < self.live@.len() ==> (#[trigger] self.live@[i]).meta.size > 0
        &&& forall|i: int|
            0 <= i < self.live@.len() ==> (#[trigger] self.live@[i]).meta.ptr + self.live@[i].meta.size <= self.next_addr
        &&& forall|i: int, j: int|
            0 <= i < j < self.live@.len() ==> (#[trigger] self.live@[i]).meta.ptr + self.live@[i].meta.size
                <= (#[trigger] self.live@[j]).meta.ptr
        &&& forall|i: int| 0 <= i < self.live@.len() ==> (#[trigger] self.live@[i]).meta.ptr >= SOFTGPU_VA_BASE
        &&& self.next_addr >= SOFTGPU_VA_BASE
    }

    /// An empty allocator of the given capacity.
    pub fn new(capacity: usize) -> (r: Self)
        ensures
            r.wf(),
            r.metas().len() == 0,
            r.bytes_in_use == 0,
            r.capacity == capacity,
    {
        let r = SoftGpuAllocator {
            live: Vec::new(),
            bytes_in_use: 0,
            capacity,
            next_alloc_id: 1,
            next_addr: SOFTGPU_VA_BASE,
        };
        assert(r.metas() =~= Seq::<AllocationMeta>::empty());
        r
    }

    pub fn bytes_in_use(&self) -> (r: usize)
        ensures
            r == self.bytes_in_use,
    {
        self.bytes_in_use
    }

    pub fn capacity(&self) -> (r: usize)
        ensures
            r == self.capacity,
    {
        self.capacity
    }

    pub fn live_count(&self) -> (r: usize)
        ensures
            r == self.metas().len(),
    {
        self.live.len()
    }

    /// Index of the live allocation based at `ptr`.
    fn index_of_base(&self, ptr: u64) -> (r: Option<usize>)
        ensures
            match r {
                Some(i) => i < self.live@.len() && self.live@[i as int].meta.ptr == ptr && forall|j: int|
                    0 <= j < i ==> (#[trigger] self.live@[j]).meta.ptr != ptr,
                None => forall|j: int| 0 <= j < self.live@.len() ==> (#[trigger] self.live@[j]).meta.ptr != ptr,
            },
    {
        let mut i: usize = 0;
        while i < self.live.len()
            invariant
                i <= self.live@.len(),
                forall|j: int| 0 <= j < i ==> (#[trigger] self.live@[j]).meta.ptr != ptr,
            decreases self.live@.len() - i,
        {
            if self.live[i].meta.ptr == ptr {
                return Some(i);
            }
            i = i + 1;
        }
        None
    }

    /// Metadata of the live allocation based at `ptr` (never for 0).
    pub fn lookup(&self, ptr: u64) -> (r: Option<AllocationMeta>)
        ensures
            ptr == 0 ==> r is None,
            ptr != 0 ==> match r {
                Some(m) => exists|i: int| 0 <= i < self.metas().len() && self.metas()[i] == m && m.ptr == ptr,
                None => forall|i: int| 0 <= i < self.metas().len() ==> self.metas()[i].ptr != ptr,
            },
    {
        if ptr == 0 {
            return None;
        }
        match self.index_of_base(ptr) {
            Some(i) => {
                assert(self.metas()[i as int] == self.live@[i as int].meta);
                Some(self.live[i].meta)
            },
            None => None,
        }
    }

    /// Index of the live allocation that covers `addr`.
    fn index_covering(&self, addr: u64) -> (r: Option<usize>)
        ensures
            match r {
                Some(i) => i < self.live@.len() && covers(self.live@[i as int].meta, addr),
                None => forall|j: int| 0 <= j < self.live@.len() ==> !covers(#[trigger] self.live@[j].meta, addr),
            },
    {
        let mut i: usize = 0;
        while i < self.live.len()
            invariant
                i <= self.live@.len(),
                forall|j: int| 0 <= j < i ==> !covers(#[trigger] self.live@[j].meta, addr),
            decreases self.live@.len() - i,
        {
            let m = self.live[i].meta;
            if m.ptr <= addr && (addr as u128) < m.ptr as u128 + m.size as u128 {
                return Some(i);
            }
            i = i + 1;
        }
        None
    }

    /// Metadata of the live allocation covering `addr`.
    pub fn find_covering(&self, addr: u64) -> (r: Option<AllocationMeta>)
        ensures
            match r {
                Some(m) => covers(m, addr) && exists|i: int| 0 <= i < self.metas().len() && self.metas()[i] == m,
                None => forall|i: int| 0 <= i < self.metas().len() ==> !covers(self.metas()[i], addr),
            },
    {
        match self.index_covering(addr) {
            Some(i) => {
                assert(self.metas()[i as int] == self.live@[i as int].meta);
                Some(self.live[i].meta)
            },
            None => {
                assert forall|i: int| 0 <= i < self.metas().len() implies !covers(self.metas()[i], addr) by {
                    assert(self.metas()[i] == self.live@[i].meta);
                }
                None
            },
        }
    }
}

/// The smallest power of two at least `n` (1 for 0), if it fits.
pub open spec fn next_pow2_spec(n: nat) -> Option<nat>
    decreases usize::MAX - n,
{
    next_pow2_from(n, 1)
}

/// The first power of two `p * 2^k` (k >= 0) at least `n`, if it fits in usize.
pub open spec fn next_pow2_from(n: nat, p: nat) -> Option<nat>
    decreases usize::MAX + 1 - p,
{
    if p >= n {
        Some(p)
    } else if p == 0 || p > usize::MAX / 2 {
        None
    } else {
        next_pow2_from(n, p * 2)
    }
}

proof fn lemma_next_pow2_bounds(n: nat, p: nat)
    requires
        1 <= p <= usize::MAX,
    ensures
        next_pow2_from(n, p) matches Some(q) ==> p <= q <= usize::MAX && q >= n,
    decreases usize::MAX + 1 - p,
{
    if p < n && p <= usize::MAX / 2 {
        lemma_next_pow2_bounds(n, p * 2);
    }
}

fn next_pow2(n: usize) -> (r: Option<usize>)
    ensures
        match next_pow2_spec(n as nat) {
            Some(p) => r == Some(p as usize),
            None => r is None,
        },
{
    let mut p: usize = 1;
    while p < n
        invariant
            p >= 1,
            next_pow2_spec(n as nat) == next_pow2_from(n as nat, p as nat),
        decreases usize::MAX - p,
    {
        if p > usize::MAX / 2 {
            return None;
        }
        p = p * 2;
    }
    Some(p)
}

fn round_up(value: usize, granule: usize) -> (r: usize)
    ensures
        r == round_up_spec(value as nat, granule as nat),
{
    if granule <= 1 {
        return value;
    }
    let q: u128 = value as u128 / granule as u128 + if value % granule != 0 { 1 } else { 0 };
    assert(q == ((value + granule - 1) as nat) / (granule as nat)) by (nonlinear_arith)
        requires
            granule > 1,
            q == value / granule + if value % granule != 0 { 1int } else { 0int },
    ;
    assert(q <= usize::MAX) by (nonlinear_arith)
        requires
            granule > 1,
            q == value / granule + if value % granule != 0 { 1int } else { 0int },
    ;
    assert(q * granule <= u128::MAX) by (nonlinear_arith)
        requires
            q <= usize::MAX,
            granule <= usize::MAX,
            usize::MAX <= 0xffff_ffff_ffff_ffffu64,
    ;
    if q * granule as u128 > usize::MAX as u128 {
        usize::MAX
    } else {
        (q * granule as u128) as usize
    }
}

/// The first multiple of `align` at or above `next`.
pub open spec fn aligned_addr_spec(next: nat, align: nat) -> nat {
    (((next + align - 1) as nat) / align) * align
}

/// Sum of sizes after removing one allocation.
proof fn lemma_sizes_sum_remove(s: Seq<AllocationMeta>, i: int)
    requires
        0 <= i < s.len(),
    ensures
        sizes_sum(s.remove(i)) + s[i].size == sizes_sum(s),
    decreases s.len(),
{
    if i == s.len() - 1 {
        assert(s.remove(i) =~= s.drop_last());
    } else {
        lemma_sizes_sum_remove(s.drop_last(), i);
        assert(s.remove(i).drop_last() =~= s.drop_last().remove(i));
    }
}

impl SoftGpuAllocator {
    /// Whether a live allocation is based at `ptr`.
    pub fn contains(&self, ptr: u64) -> (r: bool)
        ensures
            r == (ptr != 0 && exists|i: int| 0 <= i < self.metas().len() && self.metas()[i].ptr == ptr),
    {
        if ptr == 0 {
            return false;
        }
        match self.index_of_base(ptr) {
            Some(i) => {
                assert(self.metas()[i as int].ptr == ptr);
                true
            },
            None => {
                assert forall|i: int| 0 <= i < self.metas().len() implies self.metas()[i].ptr != ptr by {
                    assert(self.metas()[i] == self.live@[i].meta);
                }
                false
            },
        }
    }

    /// Allocate `size` bytes rounded up to `granule`, aligned to the
    /// smallest power of two at least `alignment`; the contents are zero.
    pub fn allocate(&mut self, space: PackedHandle, size: usize, granule: usize, alignment: usize, max_alloc: usize) -> (r: Result<u64, AllocError>)
        requires
            old(self).wf(),
        ensures
            final(self).wf(),
            final(self).capacity == old(self).capacity,
            size == 0 ==> r == Err::<u64, AllocError>(AllocError::InvalidArgument),
            size != 0 && size > max_alloc ==> r == Err::<u64, AllocError>(AllocError::InvalidAllocation),
            size != 0 && size <= max_alloc && next_pow2_spec(if alignment == 0 { 1 } else { alignment as nat }) is None
                ==> r == Err::<u64, AllocError>(AllocError::InvalidArgument),
            size != 0 && size <= max_alloc && next_pow2_spec(if alignment == 0 { 1 } else { alignment as nat }) is Some ==> {
                let rounded = round_up_spec(size as nat, if granule == 0 { 1 } else { granule as nat });
                let align = next_pow2_spec(if alignment == 0 { 1 } else { alignment as nat })->0;
                let at = aligned_addr_spec(old(self).next_addr as nat, align);
                if old(self).bytes_in_use + rounded > old(self).capacity || rounded + align > isize::MAX || at + rounded
                    > u64::MAX {
                    r == Err::<u64, AllocError>(AllocError::OutOfResources)
                } else {
                    r == Ok::<u64, AllocError>(at as u64)
                }
            },
            r is Err ==> final(self).metas() == old(self).metas() && final(self).bytes_in_use == old(self).bytes_in_use,
            r matches Ok(p) ==> {
                let rounded = round_up_spec(size as nat, if granule == 0 { 1 } else { granule as nat });
                let align = next_pow2_spec(if alignment == 0 { 1 } else { alignment as nat })->0;
                &&& p != 0
                &&& p % (align as u64) == 0
                &&& final(self).metas() == old(self).metas().push(AllocationMeta {
                    ptr: p,
                    size: rounded as usize,
                    space,
                    alignment: align as usize,
                    alloc_id: old(self).next_alloc_id,
                    host_readable: true,
                    host_writable: true,
                })
                &&& final(self).live@.last().data@ == zeros(rounded)
                &&& final(self).bytes_in_use == old(self).bytes_in_use + rounded
                &&& forall|i: int| 0 <= i < old(self).live@.len() ==> #[trigger] final(self).live@[i] == old(self).live@[i]
            },
    {
        if size == 0 {
            return Err(AllocError::InvalidArgument);
        }
        if size > max_alloc {
            return Err(AllocError::InvalidAllocation);
        }
        let align = match next_pow2(if alignment == 0 { 1 } else { alignment }) {
            Some(a) => a,
            None => {
                return Err(AllocError::InvalidArgument);
            },
        };
        proof { lemma_next_pow2_bounds(if alignment == 0 { 1 } else { alignment as nat }, 1); }
        assert(align >= 1);
        let rounded = round_up(size, if granule == 0 { 1 } else { granule });
        assert(rounded > 0) by (nonlinear_arith)
            requires
                size > 0,
                rounded == round_up_spec(size as nat, if granule == 0 { 1 } else { granule as nat }),
        ;
        if self.bytes_in_use as u128 + rounded as u128 > self.capacity as u128 {
            return Err(AllocError::OutOfResources);
        }
        if rounded as u128 + align as u128 > isize::MAX as u128 {
            return Err(AllocError::OutOfResources);
        }
        let a64 = align as u64;
        let start = self.next_addr as u128 + a64 as u128 - 1;
        assert((start / (a64 as u128)) * (a64 as u128) <= start) by (nonlinear_arith)
            requires
                a64 >= 1,
        ;
        let ptr128 = (start / a64 as u128) * a64 as u128;
        assert(ptr128 == aligned_addr_spec(self.next_addr as nat, align as nat));
        if ptr128 + rounded as u128 > u64::MAX as u128 {
            return Err(AllocError::OutOfResources);
        }
        let ptr = ptr128 as u64;
        assert(ptr >= self.next_addr) by (nonlinear_arith)
            requires
                a64 >= 1,
                start == self.next_addr + a64 - 1,
                ptr == (start / (a64 as u128)) * (a64 as u128),
        ;
        assert(ptr % a64 == 0) by (nonlinear_arith)
            requires
                a64 >= 1,
                ptr == (start / (a64 as u128)) * (a64 as u128),
        ;
        let mut data: Vec<u8> = Vec::new();
        crate::bytes::push_zeros(&mut data, rounded);
        let meta = AllocationMeta {
            ptr,
            size: rounded,
            space,
            alignment: align,
            alloc_id: self.next_alloc_id,
            host_readable: true,
            host_writable: true,
        };
        let ghost old_metas = self.metas();
        let ghost old_live = self.live@;
        self.live.push(Allocation { meta, data });
        assert(self.metas() =~= old_metas.push(meta));
        assert(self.metas().drop_last() =~= old_metas);
        self.bytes_in_use = self.bytes_in_use + rounded;
        self.next_alloc_id = self.next_alloc_id.wrapping_add(1);
        self.next_addr = ptr + rounded as u64;
        assert forall|i: int, j: int|
            0 <= i < j < self.live@.len() implies (#[trigger] self.live@[i]).meta.ptr + self.live@[i].meta.size
            <= (#[trigger] self.live@[j]).meta.ptr by {
            if j == self.live@.len() - 1 {
                assert(old_live[i] == self.live@[i]);
            }
        }
        Ok(ptr)
    }

    /// Release the allocation based at `ptr`; its metadata.
    pub fn free(&mut self, ptr: u64) -> (r: Result<AllocationMeta, AllocError>)
        requires
            old(self).wf(),
        ensures
            final(self).wf(),
            final(self).capacity == old(self).capacity,
            ptr == 0 ==> r == Err::<AllocationMeta, AllocError>(AllocError::InvalidArgument),
            r is Err ==> r == Err::<AllocationMeta, AllocError>(AllocError::InvalidArgument) && final(self).metas()
                == old(self).metas() && final(self).bytes_in_use == old(self).bytes_in_use,
            (ptr != 0 && exists|i: int| 0 <= i < old(self).metas().len() && old(self).metas()[i].ptr == ptr) ==> r is Ok,
            r matches Ok(m) ==> exists|i: int|
                0 <= i < old(self).metas().len() && old(self).metas()[i] == m && m.ptr == ptr && final(self).metas()
                    == old(self).metas().remove(i) && final(self).bytes_in_use == old(self).bytes_in_use - m.size,
    {
        if ptr == 0 {
            return Err(AllocError::InvalidArgument);
        }
        let i = match self.index_of_base(ptr) {
            Some(i) => i,
            None => {
                assert forall|k: int| 0 <= k < old(self).metas().len() implies old(self).metas()[k].ptr != ptr by {
                    assert(old(self).metas()[k] == self.live@[k].meta);
                }
                return Err(AllocError::InvalidArgument);
            },
        };
        let ghost old_metas = self.metas();
        let ghost old_live = self.live@;
        let a = self.live.remove(i);
        let m = a.meta;
        proof {
            assert(self.metas() =~= old_metas.remove(i as int));
            assert(old_metas[i as int] == m);
            lemma_sizes_sum_remove(old_metas, i as int);
            assert forall|x: int, y: int|
                0 <= x < y < self.live@.len() implies (#[trigger] self.live@[x]).meta.ptr + self.live@[x].meta.size
                <= (#[trigger] self.live@[y]).meta.ptr by {
                let ox = if x < i { x } else { x + 1 };
                let oy = if y < i { y } else { y + 1 };
                assert(self.live@[x] == old_live[ox]);
                assert(self.live@[y] == old_live[oy]);
            }
        }
        self.bytes_in_use = self.bytes_in_use - m.size;
        Ok(m)
    }

    /// Release every allocation.
    pub fn clear_all(&mut self)
        requires
            old(self).wf(),
        ensures
            final(self).wf(),
            final(self).metas().len() == 0,
            final(self).bytes_in_use == 0,
            final(self).capacity == old(self).capacity,
    {
        self.live = Vec::new();
        self.bytes_in_use = 0;
        assert(self.metas() =~= Seq::<AllocationMeta>::empty());
    }
}

impl SoftGpuAllocator {
    /// Copy `out.len()` bytes starting at `addr` out of the allocation that
    /// covers `addr`; fails closed when no allocation covers it, the range
    /// leaves the allocation, or it is not host-readable.
    pub fn read_bytes_at(&self, addr: u64, out: &mut [u8]) -> (r: Result<(), AllocError>)
        requires
            self.wf(),
        ensures
            r is Err ==> r == Err::<(), AllocError>(AllocError::InvalidArgument) && final(out)@ == old(out)@,
            r is Ok <==> exists|i: int|
                0 <= i < self.live@.len() && covers(self.live@[i].meta, addr) && addr - self.live@[i].meta.ptr
                    + old(out)@.len() <= self.live@[i].meta.size && self.live@[i].meta.host_readable,
            r is Ok ==> exists|i: int|
                0 <= i < self.live@.len() && covers(self.live@[i].meta, addr) && final(out)@ == self.live@[i].data@.subrange(
                    addr - self.live@[i].meta.ptr,
                    addr - self.live@[i].meta.ptr + old(out)@.len(),
                ),
    {
        let i = match self.index_covering(addr) {
            Some(i) => i,
            None => {
                return Err(AllocError::InvalidArgument);
            },
        };
        let m = self.live[i].meta;
        let off = (addr - m.ptr) as usize;
        let n = out.len();
        proof { self.lemma_cover_unique(addr, i as int); }
        if off as u128 + n as u128 > m.size as u128 || !m.host_readable {
            return Err(AllocError::InvalidArgument);
        }
        let mut k: usize = 0;
        while k < n
            invariant
                k <= n,
                n == out@.len(),
                i < self.live@.len(),
                self.wf(),
                m == self.live@[i as int].meta,
                off + n <= m.size,
                forall|j: int| 0 <= j < k ==> out@[j] == self.live@[i as int].data@[off + j],
            decreases n - k,
        {
            out[k] = self.live[i].data[off + k];
            k = k + 1;
        }
        assert(out@ =~= self.live@[i as int].data@.subrange(off as int, off + n));
        Ok(())
    }

    /// Distinct live allocations do not overlap: only one covers `addr`.
    pub proof fn lemma_cover_unique(&self, addr: u64, i: int)
        requires
            self.wf(),
            0 <= i < self.live@.len(),
            covers(self.live@[i].meta, addr),
        ensures
            forall|j: int| 0 <= j < self.live@.len() && covers(#[trigger] self.live@[j].meta, addr) ==> j == i,
    {
        assert forall|j: int| 0 <= j < self.live@.len() && covers(#[trigger] self.live@[j].meta, addr) implies j == i by {
            if j < i {
                assert(self.live@[j].meta.ptr + self.live@[j].meta.size <= self.live@[i].meta.ptr);
            } else if j > i {
                assert(self.live@[i].meta.ptr + self.live@[i].meta.size <= self.live@[j].meta.ptr);
            }
        }
    }

    /// Copy `data` into the allocation that covers `addr`; fails closed when
    /// no allocation covers it, the range leaves the allocation, or it is not
    /// host-writable.
    pub fn write_bytes_at(&mut self, addr: u64, data: &[u8]) -> (r: Result<(), AllocError>)
        requires
            old(self).wf(),
        ensures
            final(self).wf(),
            final(self).metas() == old(self).metas(),
            final(self).bytes_in_use == old(self).bytes_in_use,
            final(self).capacity == old(self).capacity,
            r is Err ==> r == Err::<(), AllocError>(AllocError::InvalidArgument) && *final(self) == *old(self),
            final(self).next_alloc_id == old(self).next_alloc_id,
            final(self).next_addr == old(self).next_addr,
            r is Ok <==> exists|i: int|
                0 <= i < old(self).live@.len() && covers(old(self).live@[i].meta, addr) && addr - old(self).live@[i].meta.ptr
                    + data@.len() <= old(self).live@[i].meta.size && old(self).live@[i].meta.host_writable,
            r is Ok ==> exists|i: int|
                0 <= i < old(self).live@.len() && covers(old(self).live@[i].meta, addr) && {
                    let off = addr - old(self).live@[i].meta.ptr;
                    let d0 = old(self).live@[i].data@;
                    &&& final(self).live@[i].data@ == d0.subrange(0, off) + data@ + d0.subrange(off + data@.len(), d0.len() as int)
                    &&& forall|j: int| 0 <= j < old(self).live@.len() && j != i ==> #[trigger] final(self).live@[j] == old(self).live@[j]
                },
    {
        let i = match self.index_covering(addr) {
            Some(i) => i,
            None => {
                return Err(AllocError::InvalidArgument);
            },
        };
        let m = self.live[i].meta;
        let off = (addr - m.ptr) as usize;
        let n = data.len();
        proof { self.lemma_cover_unique(addr, i as int); }
        if off as u128 + n as u128 > m.size as u128 || !m.host_writable {
            return Err(AllocError::InvalidArgument);
        }
        let ghost old_live = self.live@;
        let ghost old_metas = self.metas();
        let mut a = self.live.remove(i);
        let _dl = a.data.len();
        let ghost d0 = a.data@;
        let mut k: usize = 0;
        while k < n
            invariant
                k <= n,
                n == data@.len(),
                off + n <= d0.len(),
                d0.len() <= usize::MAX,
                a.meta == m,
                a.data@.len() == d0.len(),
                forall|j: int| 0 <= j < off ==> a.data@[j] == d0[j],
                forall|j: int| off + n <= j < d0.len() ==> a.data@[j] == d0[j],
                forall|j: int| 0 <= j < k ==> a.data@[off + j] == data@[j],
                forall|j: int| off + k <= j < d0.len() ==> a.data@[j] == d0[j],
            decreases n - k,
        {
            a.data.set(off + k, data[k]);
            k = k + 1;
        }
        assert(a.data@ =~= d0.subrange(0, off as int) + data@ + d0.subrange(off + n, d0.len() as int));
        self.live.insert(i, a);
        assert(self.live@ =~= old_live.update(i as int, a));
        assert(self.metas() =~= old_metas);
        Ok(())
    }
}

/// A region attribute answer.
#[derive(Debug, Clone, PartialEq, Eq)]
pub enum RegionInfoValue {
    Segment(u32),
    GlobalFlags(u32),
    Size(usize),
    AllocMaxSize(usize),
    RuntimeAllocAllowed(bool),
    Granule(usize),
    Alignment(usize),
}

/// A pool attribute answer.
#[derive(Debug, Clone, PartialEq, Eq)]
pub enum PoolInfoValue {
    Segment(u32),
    GlobalFlags(u32),
    Size(usize),
    RuntimeAllocAllowed(bool),
    Granule(usize),
    Alignment(usize),
    AccessibleByAll(bool),
    AllocMaxSize(usize),
    Location(u32),
    RecGranule(usize),
}

/// Allocating and then freeing the new allocation restores the accounting:
/// when `a1` is `a0` with `meta` allocated (as `allocate` leaves it) and `a2`
/// is `a1` after a successful `free` at `meta.ptr` (entry `i` removed, as
/// `free` leaves it), the freed entry is `meta` and `a2` has the live set and
/// the bytes in use of `a0`.
pub proof fn lemma_allocate_free_restores(
    a0: SoftGpuAllocator,
    a1: SoftGpuAllocator,
    a2: SoftGpuAllocator,
    meta: AllocationMeta,
    i: int,
)
    requires
        a0.wf(),
        a1.wf(),
        a1.metas() == a0.metas().push(meta),
        a1.bytes_in_use == a0.bytes_in_use + meta.size,
        0 <= i < a1.metas().len(),
        a1.metas()[i].ptr == meta.ptr,
        a2.metas() == a1.metas().remove(i),
        a2.bytes_in_use == a1.bytes_in_use - a1.metas()[i].size,
    ensures
        i == a0.metas().len(),
        a1.metas()[i] == meta,
        a2.metas() == a0.metas(),
        a2.bytes_in_use == a0.bytes_in_use,
{
    let n = a0.metas().len() as int;
    assert(a1.metas()[n] == meta);
    if i < n {
        assert(a1.live@[i].meta == a1.metas()[i]);
        assert(a1.live@[n].meta == a1.metas()[n]);
        assert(a1.live@[i].meta.size > 0);
        assert(a1.live@[i].meta.ptr + a1.live@[i].meta.size <= a1.live@[n].meta.ptr);
        assert(false);
    }
    assert(a1.metas().remove(i) =~= a0.metas());
}

/// Every live allocation is host-readable and host-writable.
pub open spec fn all_host_rw(a: SoftGpuAllocator) -> bool {
    forall|i: int| 0 <= i < a.live@.len() ==> (#[trigger] a.live@[i]).meta.host_readable && a.live@[i].meta.host_writable
}

/// Some live allocation covers `addr..addr + n`.
pub open spec fn window_exists(a: SoftGpuAllocator, addr: u64, n: nat) -> bool {
    exists|i: int| 0 <= i < a.live@.len() && #[trigger] covers(a.live@[i].meta, addr) && addr - a.live@[i].meta.ptr + n
        <= a.live@[i].meta.size
}

/// The bytes `addr..addr + n` when one live allocation covers them.
pub open spec fn window(a: SoftGpuAllocator, addr: u64, n: nat) -> Option<Seq<u8>> {
    if window_exists(a, addr, n) {
        let i = choose|i: int| 0 <= i < a.live@.len() && #[trigger] covers(a.live@[i].meta, addr) && addr - a.live@[i].meta.ptr
            + n <= a.live@[i].meta.size;
        Some(a.live@[i].data@.subrange(addr - a.live@[i].meta.ptr, addr - a.live@[i].meta.ptr + n))
    } else {
        None
    }
}

/// With a unique cover, the window is the bytes of that allocation.
pub proof fn lemma_window_at(a: SoftGpuAllocator, addr: u64, n: nat, i: int)
    requires
        a.wf(),
        0 <= i < a.live@.len(),
        covers(a.live@[i].meta, addr),
        addr - a.live@[i].meta.ptr + n <= a.live@[i].meta.size,
    ensures
        window(a, addr, n) == Some(a.live@[i].data@.subrange(addr - a.live@[i].meta.ptr, addr - a.live@[i].meta.ptr + n)),
{
    a.lemma_cover_unique(addr, i);
    assert(window_exists(a, addr, n));
    let j = choose|j: int| 0 <= j < a.live@.len() && #[trigger] covers(a.live@[j].meta, addr) && addr - a.live@[j].meta.ptr + n
        <= a.live@[j].meta.size;
    assert(j == i);
}

/// The allocator seen as global memory by the ISA interpreter: a load or
/// store succeeds exactly when one live allocation covers all its bytes.
pub struct AllocatorMemory {
    alloc: SoftGpuAllocator,
}

impl AllocatorMemory {
    #[verifier::type_invariant]
    spec fn inv(self) -> bool {
        self.alloc.wf() && all_host_rw(self.alloc)
    }

    /// The allocator inside.
    pub closed spec fn inner(&self) -> SoftGpuAllocator {
        self.alloc
    }

    /// Wraps an allocator whose allocations are all host-accessible.
    pub fn new(alloc: SoftGpuAllocator) -> (r: Self)
        requires
            alloc.wf(),
            all_host_rw(alloc),
        ensures
            r.inner() == alloc,
    {
        AllocatorMemory { alloc }
    }

    /// The allocator back, with its layout unchanged by interpreter stores.
    pub fn into_inner(self) -> (r: SoftGpuAllocator)
        ensures
            r == self.inner(),
            r.wf(),
            all_host_rw(r),
    {
        proof { use_type_invariant(&self); }
        self.alloc
    }

    /// Index of the allocation covering `addr..addr + n`, if one does.
    fn cover_index(&self, addr: u64, n: usize) -> (r: Option<usize>)
        ensures
            match r {
                Some(i) => i < self.alloc.live@.len() && covers(self.alloc.live@[i as int].meta, addr) && addr
                    - self.alloc.live@[i as int].meta.ptr + n <= self.alloc.live@[i as int].meta.size,
                None => !window_exists(self.alloc, addr, n as nat),
            },
    {
        proof { use_type_invariant(self); }
        match self.alloc.index_covering(addr) {
            None => None,
            Some(i) => {
                let m = self.alloc.live[i].meta;
                proof { self.alloc.lemma_cover_unique(addr, i as int); }
                if (addr - m.ptr) as u128 + n as u128 <= m.size as u128 {
                    Some(i)
                } else {
                    None
                }
            },
        }
    }

    /// The trap raised for an access no allocation covers.
    fn oob(what: &str, addr: u64) -> (e: IsaError)
        ensures
            e.kind == IsaErrorKind::Trap,
    {
        let m = crate::text::cat(crate::text::owned("SoftGPU alloc "), what);
        let m = crate::text::cat_string(crate::text::cat(m, " OOB/unknown addr=0x"), crate::text::hex_u64(addr));
        IsaError::new(IsaErrorKind::Trap, m.as_str())
    }

    /// Writes `data` at `addr`, which the allocation `i` covers.
    fn write_at(&mut self, addr: u64, data: &[u8], i: usize)
        requires
            i < old(self).alloc.live@.len(),
            covers(old(self).alloc.live@[i as int].meta, addr),
            addr - old(self).alloc.live@[i as int].meta.ptr + data@.len() <= old(self).alloc.live@[i as int].meta.size,
        ensures
            final(self).alloc.metas() == old(self).alloc.metas(),
            final(self).alloc.live@.len() == old(self).alloc.live@.len(),
            ({
                let off = addr - old(self).alloc.live@[i as int].meta.ptr;
                let d0 = old(self).alloc.live@[i as int].data@;
                final(self).alloc.live@[i as int].data@ == d0.subrange(0, off) + data@ + d0.subrange(
                    off + data@.len(),
                    d0.len() as int,
                )
            }),
            forall|j: int|
                0 <= j < old(self).alloc.live@.len() && j != i ==> #[trigger] final(self).alloc.live@[j]
                    == old(self).alloc.live@[j],
            forall|j: int|
                0 <= j < old(self).alloc.live@.len() ==> #[trigger] final(self).alloc.live@[j].meta
                    == old(self).alloc.live@[j].meta,
    {
        proof {
            use_type_invariant(&*self);
            self.alloc.lemma_cover_unique(addr, i as int);
        }
        let mut a = SoftGpuAllocator::new(0);
        std::mem::swap(&mut a, &mut self.alloc);
        let r = a.write_bytes_at(addr, data);
        proof {
            assert forall|j: int| 0 <= j < a.live@.len() implies (#[trigger] a.live@[j]).meta.host_readable
                && a.live@[j].meta.host_writable by {
                assert(a.metas()[j] == old(self).alloc.metas()[j]);
            }
        }
        std::mem::swap(&mut a, &mut self.alloc);
        proof {
            assert(old(self).alloc.live@[i as int].meta.host_writable);
            assert(r is Ok);
            let k = choose|k: int|
                0 <= k < old(self).alloc.live@.len() && covers(old(self).alloc.live@[k].meta, addr) && {
                    let off = addr - old(self).alloc.live@[k].meta.ptr;
                    let d0 = old(self).alloc.live@[k].data@;
                    &&& self.alloc.live@[k].data@ == d0.subrange(0, off) + data@ + d0.subrange(
                        off + data@.len(),
                        d0.len() as int,
                    )
                    &&& forall|j: int|
                        0 <= j < old(self).alloc.live@.len() && j != k ==> #[trigger] self.alloc.live@[j]
                            == old(self).alloc.live@[j]
                };
            assert(k == i);
            assert forall|j: int| 0 <= j < old(self).alloc.live@.len() implies #[trigger] self.alloc.live@[j].meta
                == old(self).alloc.live@[j].meta by {
                assert(self.alloc.metas()[j] == old(self).alloc.metas()[j]);
            }
        }
    }
}

impl IsaMemory for AllocatorMemory {
    closed spec fn load32(&self, addr: u64) -> Option<u32> {
        match window(self.alloc, addr, 4) {
            Some(b) => Some(le32(b, 0) as u32),
            None => None,
        }
    }

    closed spec fn load64(&self, addr: u64) -> Option<u64> {
        match window(self.alloc, addr, 8) {
            Some(b) => Some(le64(b, 0) as u64),
            None => None,
        }
    }

    fn load_u32(&self, addr: u64) -> (r: Result<u32, IsaError>) {
        proof { use_type_invariant(self); }
        match self.cover_index(addr, 4) {
            None => Err(Self::oob("load_u32", addr)),
            Some(i) => {
                proof { lemma_window_at(self.alloc, addr, 4, i as int); }
                let m = self.alloc.live[i].meta;
                let off = (addr - m.ptr) as usize;
                let v = le_u32_at(self.alloc.live[i].data.as_slice(), off);
                proof {
                    let b = self.alloc.live@[i as int].data@.subrange(off as int, off + 4);
                    assert(le32(b, 0) == le32(self.alloc.live@[i as int].data@, off as int));
                }
                Ok(v)
            },
        }
    }

    fn load_u64(&self, addr: u64) -> (r: Result<u64, IsaError>) {
        proof { use_type_invariant(self); }
        match self.cover_index(addr, 8) {
            None => Err(Self::oob("load_u64", addr)),
            Some(i) => {
                proof { lemma_window_at(self.alloc, addr, 8, i as int); }
                let m = self.alloc.live[i].meta;
                let off = (addr - m.ptr) as usize;
                let v = le_u64_at(self.alloc.live[i].data.as_slice(), off);
                proof {
                    let b = self.alloc.live@[i as int].data@.subrange(off as int, off + 8);
                    assert(le64(b, 0) == le64(self.alloc.live@[i as int].data@, off as int));
                }
                Ok(v)
            },
        }
    }

    fn store_u32(&mut self, addr: u64, value: u32) -> (r: Result<(), IsaError>) {
        proof { use_type_invariant(&*self); }
        let i = match self.cover_index(addr, 4) {
            None => {
                return Err(Self::oob("store_u32", addr));
            },
            Some(i) => i,
        };
        let ghost old_alloc = self.alloc;
        proof { lemma_window_at(old_alloc, addr, 4, i as int); }
        let bytes = crate::isa::word::word_to_le_bytes(value);
        self.write_at(addr, &bytes, i);
        proof {
            use_type_invariant(&*self);
            let p = old_alloc.live@[i as int].meta.ptr;
            let off = addr - p;
            lemma_window_at(self.alloc, addr, 4, i as int);
            crate::bytes::lemma_le32_of_bytes(value);
            assert(self.alloc.live@[i as int].data@.subrange(off, off + 4) =~= bytes@);
            assert forall|a: u64| a + 4 <= addr || addr + 4 <= a implies #[trigger] self.load32(a) == old_alloc_load32(
                old_alloc,
                a,
            ) by {
                if window_exists(old_alloc, a, 4) {
                    let j = choose|j: int| 0 <= j < old_alloc.live@.len() && #[trigger] covers(old_alloc.live@[j].meta, a)
                        && a - old_alloc.live@[j].meta.ptr + 4 <= old_alloc.live@[j].meta.size;
                    lemma_window_at(old_alloc, a, 4, j);
                    assert(self.alloc.live@[j].meta == old_alloc.live@[j].meta);
                    lemma_window_at(self.alloc, a, 4, j);
                    if j == i {
                        assert(self.alloc.live@[j].data@.subrange(a - p, a - p + 4) =~= old_alloc.live@[j].data@.subrange(
                            a - p,
                            a - p + 4,
                        ));
                    }
                } else {
                    if window_exists(self.alloc, a, 4) {
                        let j = choose|j: int| 0 <= j < self.alloc.live@.len() && #[trigger] covers(self.alloc.live@[j].meta, a)
                            && a - self.alloc.live@[j].meta.ptr + 4 <= self.alloc.live@[j].meta.size;
                        assert(old_alloc.live@[j].meta == self.alloc.live@[j].meta);
                        assert(covers(old_alloc.live@[j].meta, a));
                    }
                }
            }
            assert forall|a: u64| (#[trigger] self.load32(a) is Some) == (old_alloc_load32(old_alloc, a) is Some) by {
                if window_exists(old_alloc, a, 4) {
                    let j = choose|j: int| 0 <= j < old_alloc.live@.len() && #[trigger] covers(old_alloc.live@[j].meta, a)
                        && a - old_alloc.live@[j].meta.ptr + 4 <= old_alloc.live@[j].meta.size;
                    assert(self.alloc.live@[j].meta == old_alloc.live@[j].meta);
                    assert(covers(self.alloc.live@[j].meta, a));
                }
                if window_exists(self.alloc, a, 4) {
                    let j = choose|j: int| 0 <= j < self.alloc.live@.len() && #[trigger] covers(self.alloc.live@[j].meta, a)
                        && a - self.alloc.live@[j].meta.ptr + 4 <= self.alloc.live@[j].meta.size;
                    assert(old_alloc.live@[j].meta == self.alloc.live@[j].meta);
                    assert(covers(old_alloc.live@[j].meta, a));
                }
            }
        }
        Ok(())
    }

    fn store_u64(&mut self, addr: u64, value: u64) -> (r: Result<(), IsaError>) {
        proof { use_type_invariant(&*self); }
        let i = match self.cover_index(addr, 8) {
            None => {
                return Err(Self::oob("store_u64", addr));
            },
            Some(i) => i,
        };
        let ghost old_alloc = self.alloc;
        proof { lemma_window_at(old_alloc, addr, 8, i as int); }
        let mut bytes: Vec<u8> = Vec::new();
        crate::bytes::push_le_u64(&mut bytes, value);
        self.write_at(addr, bytes.as_slice(), i);
        proof {
            use_type_invariant(&*self);
            let p = old_alloc.live@[i as int].meta.ptr;
            let off = addr - p;
            lemma_window_at(self.alloc, addr, 8, i as int);
            crate::bytes::lemma_le64_of_bytes(value);
            assert(bytes@ =~= crate::bytes::le_bytes(value as int, 8));
            assert(self.alloc.live@[i as int].data@.subrange(off, off + 8) =~= bytes@);
        }
        Ok(())
    }
}

/// What `load32` answered on an allocator before a store.
spec fn old_alloc_load32(a: SoftGpuAllocator, addr: u64) -> Option<u32> {
    match window(a, addr, 4) {
        Some(b) => Some(le32(b, 0) as u32),
        None => None,
    }
}

} // verus!
