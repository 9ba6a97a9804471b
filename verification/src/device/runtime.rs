//! The runtime session: reference-counted init, generation-checked handle
//! tables for agents, regions, pools, signals and queues, software memory,
//! doorbell-driven packet processing, executables and traces.
//!
//! Handles carry a generation; destroying a slot or tearing the session down
//! bumps the generation counter, so a stale handle never resolves again.
use super::agent::{AgentInfoAttr, AgentKind, VirtualAgent};
use super::aql::{
    parse_supported_packet, supported_fault, AqlParseError, DispatchDescriptor, KernargClass, PacketType, DIAGNOSTIC_COMPLETE_NO_EXECUTION,
    DIAGNOSTIC_REJECTED, KERNEL_SUCCESS,
};
use super::error::Error;
use super::executable::{index_entries, index_symbols, parse_agent_kernels, CodeObjectReader, ExecutableSymbol, SoftGpuExecutable};
use super::fidelity::FidelityLevel;
use super::handle::{kind_of_code, HandleKind, PackedHandle};
use super::memory::{
    all_host_rw, covers, lemma_window_at, next_pow2_spec, round_up_spec, window, window_exists, AllocError, AllocationMeta, AllocatorMemory, MemorySpace, MemoryViewKind, PoolInfoValue,
    RegionInfoValue, SoftGpuAllocator, AMD_POOL_FLAGS_COARSE, AMD_POOL_FLAGS_FINE_KERNARG, AMD_POOL_LOCATION_CPU,
    AMD_POOL_LOCATION_GPU, AMD_SEGMENT_GLOBAL, REGION_FLAGS_COARSE, REGION_FLAGS_FINE_KERNARG,
    REGION_SEGMENT_GLOBAL, SOFTGPU_ALLOC_ALIGNMENT, SOFTGPU_ALLOC_GRANULE, SOFTGPU_MAX_ALLOC_BYTES,
    SOFTGPU_POOL_BYTES,
};
use super::profile::{profile_valid, DeviceProfile};
use super::queue::{
    fresh_ring, index_range, packet_ok, packet_type_spec, slot_in_ring, stopped_at, PACKET_TYPE_INVALID, is_power_of_two, pow2_spec, PacketObservation, PacketValidateError, QUEUE_TYPE_SINGLE, SoftGpuQueue, QUEUE_FEATURE_KERNEL_DISPATCH, QUEUE_TYPE_MULTI,
    SOFTGPU_QUEUES_MAX, SOFTGPU_QUEUE_MAX_SIZE, SOFTGPU_QUEUE_MIN_SIZE,
};
use super::signal::{condition_of, holds, wait_spec, SignalCondition, SignalWaitOutcome, SoftGpuSignal};
use super::trace::{copy_event, event_eqv, fidelity_text, logged_one, bump_seq, TraceEvent, TraceLog, TraceSink};
use super::keyed::{find_key, insert_key, keys_unique, lemma_lookup_at, lookup, remove_key, remove_owned};
use crate::code_object::load::LaunchAbi;
use super::handle::{lemma_pack_round_trip, pack_spec};
use crate::isa::arch::WaveSize;
use crate::isa::error::{IsaError, IsaErrorKind};
use crate::isa::kernel::{launch_rel, run_code_1d, tiny_add_text, tiny_add_text_spec};
use crate::text::{byte_prefix, cat, cat_string, char_boundary, dec_chars, dec_u64, owned};
use vstd::prelude::*;

verus! {

/// The feature bit of an agent that accepts kernel dispatches.
pub const AGENT_FEATURE_KERNEL_DISPATCH: u32 = 1;

/// Events the runtime trace ring keeps.
pub const RUNTIME_TRACE_CAPACITY: usize = 512;

/// Errors of the runtime (mapped to HSA statuses at the edge).
#[derive(Debug, Clone, PartialEq, Eq)]
pub enum RuntimeError {
    NotInitialized,
    RefcountOverflow,
    InvalidArgument,
    InvalidAgent,
    InvalidRegion,
    InvalidPool,
    InvalidSignal,
    InvalidQueue,
    InvalidQueueCreation,
    InvalidAllocation,
    OutOfResources,
    UnsupportedAttribute,
    Internal(String),
}

/// Stable name of a runtime error.
pub open spec fn runtime_error_name(e: RuntimeError) -> Seq<char> {
    match e {
        RuntimeError::NotInitialized => "not_initialized"@,
        RuntimeError::RefcountOverflow => "refcount_overflow"@,
        RuntimeError::InvalidArgument => "invalid_argument"@,
        RuntimeError::InvalidAgent => "invalid_agent"@,
        RuntimeError::InvalidRegion => "invalid_region"@,
        RuntimeError::InvalidPool => "invalid_pool"@,
        RuntimeError::InvalidSignal => "invalid_signal"@,
        RuntimeError::InvalidQueue => "invalid_queue"@,
        RuntimeError::InvalidQueueCreation => "invalid_queue_creation"@,
        RuntimeError::InvalidAllocation => "invalid_allocation"@,
        RuntimeError::OutOfResources => "out_of_resources"@,
        RuntimeError::UnsupportedAttribute => "unsupported_attribute"@,
        RuntimeError::Internal(_) => "internal"@,
    }
}

impl RuntimeError {
    pub fn as_str(&self) -> (s: &'static str)
        ensures
            s@ == runtime_error_name(*self),
    {
        match self {
            RuntimeError::NotInitialized => "not_initialized",
            RuntimeError::RefcountOverflow => "refcount_overflow",
            RuntimeError::InvalidArgument => "invalid_argument",
            RuntimeError::InvalidAgent => "invalid_agent",
            RuntimeError::InvalidRegion => "invalid_region",
            RuntimeError::InvalidPool => "invalid_pool",
            RuntimeError::InvalidSignal => "invalid_signal",
            RuntimeError::InvalidQueue => "invalid_queue",
            RuntimeError::InvalidQueueCreation => "invalid_queue_creation",
            RuntimeError::InvalidAllocation => "invalid_allocation",
            RuntimeError::OutOfResources => "out_of_resources",
            RuntimeError::UnsupportedAttribute => "unsupported_attribute",
            RuntimeError::Internal(_) => "internal",
        }
    }
}

/// A slot of the agent table.
#[derive(Debug)]
pub struct AgentSlot {
    pub generation: u32,
    pub live: bool,
    pub agent: Option<VirtualAgent>,
}

/// A slot of the region or pool table.
#[derive(Debug)]
pub struct SpaceSlot {
    pub generation: u32,
    pub live: bool,
    pub space: Option<MemorySpace>,
}

/// A slot of the signal table.
#[derive(Debug)]
pub struct SignalSlot {
    pub generation: u32,
    pub live: bool,
    pub signal: Option<SoftGpuSignal>,
}

/// A slot of the queue table, with the ABI fields handed to the producer.
#[derive(Debug)]
pub struct QueueSlot {
    pub generation: u32,
    pub live: bool,
    pub queue: Option<SoftGpuQueue>,
    pub abi: QueueAbi,
}

/// A registered ISA kernel image.
#[derive(Debug, Clone)]
pub struct RegisteredIsaKernel {
    pub name: String,
    pub code: Vec<u8>,
    pub kernarg_segment_size: u32,
    pub group_segment_size: u32,
    pub private_segment_size: u32,
}

/// The fields of a queue a host producer reads (the HSA queue structure).
#[derive(Debug, Clone, Copy, PartialEq, Eq)]
pub struct QueueAbi {
    pub type_: u32,
    pub features: u32,
    pub doorbell_signal: u64,
    pub size: u32,
    pub reserved1: u32,
    pub id: u64,
}

/// Typed agent attribute answers.
#[derive(Debug, Clone, PartialEq, Eq)]
pub enum AgentInfoValue {
    Name(String),
    VendorName(String),
    Feature(u32),
    Device(AgentKind),
    U16(u16),
    U32(u32),
}

/// Region attributes.
#[derive(Debug, Clone, Copy, PartialEq, Eq, Structural)]
pub enum RegionInfoAttr {
    Segment,
    GlobalFlags,
    Size,
    AllocMaxSize,
    RuntimeAllocAllowed,
    Granule,
    Alignment,
}

/// Pool attributes.
#[derive(Debug, Clone, Copy, PartialEq, Eq, Structural)]
pub enum PoolInfoAttr {
    Segment,
    GlobalFlags,
    Size,
    RuntimeAllocAllowed,
    Granule,
    Alignment,
    AccessibleByAll,
    AllocMaxSize,
    Location,
    RecGranule,
}

/// The raw handle's kind.
pub open spec fn h_kind(h: PackedHandle) -> Option<HandleKind> {
    kind_of_code((h.0 / 0x100_0000_0000_0000) as u8)
}

/// The raw handle's 24-bit generation.
pub open spec fn h_gen(h: PackedHandle) -> u32 {
    ((h.0 / 0x1_0000_0000) % 0x100_0000) as u32
}

/// The raw handle's 32-bit index.
pub open spec fn h_index(h: PackedHandle) -> int {
    (h.0 % 0x1_0000_0000) as int
}

/// The generation after `g`: `g + 1`, wrapping from `0xFF_FFFF` back to 1.
pub open spec fn next_gen(g: u32) -> u32 {
    if g >= 0xFF_FFFF {
        1
    } else {
        (g + 1) as u32
    }
}

/// The region or pool a fresh session lays over the allocator for view `v`.
pub open spec fn bootstrap_space(v: MemoryViewKind, handle: PackedHandle, agent_handle: PackedHandle) -> MemorySpace {
    MemorySpace {
        handle,
        kind: v,
        agent_handle,
        segment: 0,
        global_flags: match v {
            MemoryViewKind::RegionFineKernarg => REGION_FLAGS_FINE_KERNARG,
            MemoryViewKind::RegionCoarse => REGION_FLAGS_COARSE,
            MemoryViewKind::PoolFineHost => AMD_POOL_FLAGS_FINE_KERNARG,
            MemoryViewKind::PoolCoarseDevice => AMD_POOL_FLAGS_COARSE,
        },
        size_bytes: SOFTGPU_POOL_BYTES,
        alloc_max_size: SOFTGPU_MAX_ALLOC_BYTES,
        runtime_alloc_allowed: true,
        granule: SOFTGPU_ALLOC_GRANULE,
        alignment: SOFTGPU_ALLOC_ALIGNMENT,
        location: match v {
            MemoryViewKind::PoolFineHost => Some(AMD_POOL_LOCATION_CPU),
            MemoryViewKind::PoolCoarseDevice => Some(AMD_POOL_LOCATION_GPU),
            _ => None,
        },
    }
}

/// The session's state as values.
pub struct RuntimeView {
    pub refcount: u32,
    pub profile: DeviceProfile,
    pub agents: Seq<AgentSlot>,
    pub regions: Seq<SpaceSlot>,
    pub pools: Seq<SpaceSlot>,
    pub signals: Seq<SignalSlot>,
    pub queues: Seq<QueueSlot>,
    pub allocator: SoftGpuAllocator,
    pub next_generation: u32,
    pub next_queue_id: u64,
    pub captures: Seq<DispatchDescriptor>,
    pub kernels: Seq<(u64, RegisteredIsaKernel)>,
    pub next_kernel_object: u64,
    pub readers: Seq<(u64, CodeObjectReader)>,
    pub next_reader_id: u64,
    pub executables: Seq<(u64, SoftGpuExecutable)>,
    pub next_executable_id: u64,
    pub symbols: Seq<(u64, (u64, usize))>,
    pub next_symbol_id: u64,
    pub trace: TraceLog,
}

/// The runtime session.
pub struct Runtime {
    refcount: u32,
    profile: DeviceProfile,
    agents: Vec<AgentSlot>,
    regions: Vec<SpaceSlot>,
    pools: Vec<SpaceSlot>,
    signals: Vec<SignalSlot>,
    queues: Vec<QueueSlot>,
    allocator: SoftGpuAllocator,
    next_generation: u32,
    next_queue_id: u64,
    dispatch_captures: Vec<DispatchDescriptor>,
    isa_kernels: Vec<(u64, RegisteredIsaKernel)>,
    next_kernel_object: u64,
    code_object_readers: Vec<(u64, CodeObjectReader)>,
    next_reader_id: u64,
    executables: Vec<(u64, SoftGpuExecutable)>,
    next_executable_id: u64,
    executable_symbols: Vec<(u64, (u64, usize))>,
    next_symbol_id: u64,
    trace: TraceLog,
}

impl View for Runtime {
    type V = RuntimeView;

    closed spec fn view(&self) -> RuntimeView {
        RuntimeView {
            refcount: self.refcount,
            profile: self.profile,
            agents: self.agents@,
            regions: self.regions@,
            pools: self.pools@,
            signals: self.signals@,
            queues: self.queues@,
            allocator: self.allocator,
            next_generation: self.next_generation,
            next_queue_id: self.next_queue_id,
            captures: self.dispatch_captures@,
            kernels: self.isa_kernels@,
            next_kernel_object: self.next_kernel_object,
            readers: self.code_object_readers@,
            next_reader_id: self.next_reader_id,
            executables: self.executables@,
            next_executable_id: self.next_executable_id,
            symbols: self.executable_symbols@,
            next_symbol_id: self.next_symbol_id,
            trace: self.trace,
        }
    }
}

impl RuntimeView {
    /// The session's invariants.
    pub open spec fn wf(self) -> bool {
        &&& self.wf_core()
        &&& self.refcount == 0 ==> self.is_down()
    }

    /// The invariants that hold also in the middle of bringing a session up
    /// or down.
    pub open spec fn wf_core(self) -> bool {
        &&& self.allocator.wf()
        &&& all_host_rw(self.allocator)
        &&& self.trace.wf()
        &&& 1 <= self.next_generation <= 0xFF_FFFF
        &&& forall|i: int| 0 <= i < self.queues.len() ==> ((#[trigger] self.queues[i]).queue matches Some(q) ==> q.wf())
        &&& keys_unique(self.kernels)
        &&& keys_unique(self.readers)
        &&& keys_unique(self.executables)
        &&& keys_unique(self.symbols)
        &&& forall|i: int| 0 <= i < self.agents.len() && (#[trigger] self.agents[i]).live ==> self.agents[i].agent is Some
        &&& forall|i: int| 0 <= i < self.regions.len() && (#[trigger] self.regions[i]).live ==> self.regions[i].space is Some
        &&& forall|i: int| 0 <= i < self.pools.len() && (#[trigger] self.pools[i]).live ==> self.pools[i].space is Some
        &&& forall|i: int| 0 <= i < self.signals.len() && (#[trigger] self.signals[i]).live ==> self.signals[i].signal is Some
        &&& forall|i: int| 0 <= i < self.queues.len() && (#[trigger] self.queues[i]).live ==> self.queues[i].queue is Some
    }

    /// Nothing of a session is live: no agents, spaces, signals, queues,
    /// allocations or captures.
    pub open spec fn is_down(self) -> bool {
        &&& self.agents.len() == 0
        &&& self.regions.len() == 0
        &&& self.pools.len() == 0
        &&& self.signals.len() == 0
        &&& self.queues.len() == 0
        &&& self.allocator.metas().len() == 0
        &&& self.captures.len() == 0
    }

    /// `h` names the live agent at its index, with its generation.
    pub open spec fn agent_handle_ok(self, h: PackedHandle) -> bool {
        &&& h.0 != 0
        &&& h_kind(h) == Some(HandleKind::Agent)
        &&& h_index(h) < self.agents.len()
        &&& self.agents[h_index(h)].live
        &&& self.agents[h_index(h)].generation == h_gen(h)
        &&& self.agents[h_index(h)].agent is Some
    }

    /// The table of `kind` (regions for `Region`, pools otherwise).
    pub open spec fn space_table(self, kind: HandleKind) -> Seq<SpaceSlot> {
        if kind == HandleKind::Region {
            self.regions
        } else {
            self.pools
        }
    }

    /// `h` names the live region (or pool) at its index, with its generation.
    pub open spec fn space_handle_ok(self, h: PackedHandle, kind: HandleKind) -> bool {
        &&& h.0 != 0
        &&& h_kind(h) == Some(kind)
        &&& h_index(h) < self.space_table(kind).len()
        &&& self.space_table(kind)[h_index(h)].live
        &&& self.space_table(kind)[h_index(h)].generation == h_gen(h)
        &&& self.space_table(kind)[h_index(h)].space is Some
    }

    /// `h` names the live signal at its index, with its generation.
    pub open spec fn signal_handle_ok(self, h: PackedHandle) -> bool {
        &&& h.0 != 0
        &&& h_kind(h) == Some(HandleKind::Signal)
        &&& h_index(h) < self.signals.len()
        &&& self.signals[h_index(h)].live
        &&& self.signals[h_index(h)].generation == h_gen(h)
        &&& self.signals[h_index(h)].signal is Some
    }

    /// `h` names the live queue at its index, with its generation.
    pub open spec fn queue_handle_ok(self, h: PackedHandle) -> bool {
        &&& h.0 != 0
        &&& h_kind(h) == Some(HandleKind::Queue)
        &&& h_index(h) < self.queues.len()
        &&& self.queues[h_index(h)].live
        &&& self.queues[h_index(h)].generation == h_gen(h)
        &&& self.queues[h_index(h)].queue is Some
    }

    /// The agent `h` names (meaningful when `agent_handle_ok`).
    pub open spec fn agent_of(self, h: PackedHandle) -> VirtualAgent {
        self.agents[h_index(h)].agent->0
    }

    /// The space `h` names (meaningful when `space_handle_ok`).
    pub open spec fn space_of(self, h: PackedHandle, kind: HandleKind) -> MemorySpace {
        self.space_table(kind)[h_index(h)].space->0
    }

    /// The signal `h` names (meaningful when `signal_handle_ok`).
    pub open spec fn signal_of(self, h: PackedHandle) -> SoftGpuSignal {
        self.signals[h_index(h)].signal->0
    }

    /// The queue `h` names (meaningful when `queue_handle_ok`).
    pub open spec fn queue_of(self, h: PackedHandle) -> SoftGpuQueue {
        self.queues[h_index(h)].queue->0
    }

    /// Number of live queues.
    pub open spec fn live_queue_count(self) -> nat {
        live_queues(self.queues)
    }
}

/// The agent a fresh session creates from `profile` under `handle`.
pub open spec fn bootstrap_agent(a: VirtualAgent, handle: PackedHandle, profile: DeviceProfile) -> bool {
    &&& a.handle == handle
    &&& a.kind == AgentKind::Gpu
    &&& a.name@ == byte_prefix(profile.identity.product_name@, 63)
    &&& a.vendor_name@ == byte_prefix(profile.identity.vendor@, 63)
    &&& a.feature_mask == AGENT_FEATURE_KERNEL_DISPATCH
    &&& a.profile_id@ == profile.profile_id@
    &&& a.profile_revision@ == profile.profile_revision@
}

/// The state of a session that has just come up, generations taken from
/// `g` on: one live GPU agent at index 0, then two regions and two pools.
pub open spec fn bootstrapped(v: RuntimeView, g: u32) -> bool {
    let g1 = next_gen(g);
    let g2 = next_gen(g1);
    let g3 = next_gen(g2);
    let g4 = next_gen(g3);
    let agent = PackedHandle(pack_spec(HandleKind::Agent, g, 0));
    &&& v.agents.len() == 1
    &&& v.agents[0].generation == g
    &&& v.agents[0].live
    &&& v.agents[0].agent matches Some(a) && bootstrap_agent(a, agent, v.profile)
    &&& v.agent_handle_ok(agent)
    &&& v.regions.len() == 2
    &&& v.regions[0] == (SpaceSlot {
        generation: g1,
        live: true,
        space: Some(bootstrap_space(MemoryViewKind::RegionFineKernarg, PackedHandle(pack_spec(HandleKind::Region, g1, 0)), agent)),
    })
    &&& v.regions[1] == (SpaceSlot {
        generation: g2,
        live: true,
        space: Some(bootstrap_space(MemoryViewKind::RegionCoarse, PackedHandle(pack_spec(HandleKind::Region, g2, 1)), agent)),
    })
    &&& v.pools.len() == 2
    &&& v.pools[0] == (SpaceSlot {
        generation: g3,
        live: true,
        space: Some(bootstrap_space(MemoryViewKind::PoolFineHost, PackedHandle(pack_spec(HandleKind::MemoryPool, g3, 0)), agent)),
    })
    &&& v.pools[1] == (SpaceSlot {
        generation: g4,
        live: true,
        space: Some(bootstrap_space(MemoryViewKind::PoolCoarseDevice, PackedHandle(pack_spec(HandleKind::MemoryPool, g4, 1)), agent)),
    })
    &&& v.next_generation == next_gen(g4)
    &&& v.signals.len() == 0
    &&& v.queues.len() == 0
    &&& v.allocator.metas().len() == 0
    &&& v.captures.len() == 0
}

/// `b` differs from `a` at most in its trace.
pub open spec fn same_but_trace(a: RuntimeView, b: RuntimeView) -> bool {
    b == (RuntimeView { trace: b.trace, ..a })
}

/// The names a fresh session truncates can be cut at 63 bytes.
pub open spec fn names_truncate(p: DeviceProfile) -> bool {
    char_boundary(p.identity.product_name@, 63) && char_boundary(p.identity.vendor@, 63)
}

impl Runtime {
    /// A session over `profile`, down; fails exactly when the profile does
    /// not validate.
    pub fn new(profile: DeviceProfile) -> (r: Result<Runtime, Error>)
        ensures
            r is Ok <==> profile_valid(profile),
            r matches Ok(rt) ==> {
                &&& rt@.wf()
                &&& rt@.refcount == 0
                &&& rt@.profile == profile
                &&& rt@.next_generation == 1
                &&& rt@.kernels.len() == 0
                &&& rt@.readers.len() == 0
                &&& rt@.executables.len() == 0
                &&& rt@.symbols.len() == 0
                &&& rt@.trace.events@.len() == 0
                &&& rt@.trace.capacity == RUNTIME_TRACE_CAPACITY
            },
            r matches Err(e) ==> e.category == super::error::ErrorCategory::Profile,
    {
        match profile.validate() {
            Err(e) => Err(e),
            Ok(()) => {
                let rt = Runtime {
                    refcount: 0,
                    profile,
                    agents: Vec::new(),
                    regions: Vec::new(),
                    pools: Vec::new(),
                    signals: Vec::new(),
                    queues: Vec::new(),
                    allocator: SoftGpuAllocator::new(SOFTGPU_POOL_BYTES),
                    next_generation: 1,
                    next_queue_id: 1,
                    dispatch_captures: Vec::new(),
                    isa_kernels: Vec::new(),
                    next_kernel_object: 1,
                    code_object_readers: Vec::new(),
                    next_reader_id: 1,
                    executables: Vec::new(),
                    next_executable_id: 1,
                    executable_symbols: Vec::new(),
                    next_symbol_id: 1,
                    trace: TraceLog::new(RUNTIME_TRACE_CAPACITY),
                };
                assert(rt@.allocator.metas().len() == 0);
                Ok(rt)
            },
        }
    }

    /// Takes the next generation.
    fn alloc_generation(&mut self) -> (g: u32)
        requires
            old(self)@.wf_core(),
        ensures
            g == old(self)@.next_generation,
            final(self)@ == (RuntimeView { next_generation: next_gen(g), ..old(self)@ }),
            final(self)@.wf_core(),
    {
        let g = self.next_generation;
        self.next_generation = if g >= 0xFF_FFFF { 1 } else { g + 1 };
        g
    }

    /// Whether the session is up.
    pub fn is_initialized(&self) -> (r: bool)
        ensures
            r == (self@.refcount > 0),
    {
        self.refcount > 0
    }

    /// The device profile.
    pub fn profile(&self) -> (r: &DeviceProfile)
        ensures
            *r == self@.profile,
    {
        &self.profile
    }

    /// The highest fidelity the profile lets the session claim.
    pub fn max_fidelity(&self) -> (r: FidelityLevel)
        ensures
            r == self@.profile.max_fidelity,
    {
        self.profile.max_fidelity
    }

    /// The events the trace ring holds, oldest first.
    pub fn trace_snapshot(&self) -> (r: Vec<TraceEvent>)
        ensures
            r@.len() == self@.trace.events@.len(),
            forall|i: int| 0 <= i < r@.len() ==> event_eqv(self@.trace.events@[i], #[trigger] r@[i]),
    {
        let mut out: Vec<TraceEvent> = Vec::new();
        let mut i: usize = 0;
        while i < self.trace.events.len()
            invariant
                i <= self.trace.events@.len(),
                out@.len() == i,
                forall|j: int| 0 <= j < i ==> event_eqv(self.trace.events@[j], #[trigger] out@[j]),
            decreases self.trace.events@.len() - i,
        {
            out.push(copy_event(&self.trace.events[i]));
            i = i + 1;
        }
        out
    }
}

/// The event `init` records for `p` under sequence number `seq`.
pub open spec fn init_event(e: TraceEvent, seq: u64, p: DeviceProfile) -> bool {
    &&& e matches TraceEvent::RuntimeInit { seq: s, refcount, profile_id, profile_revision, fidelity }
    &&& e->RuntimeInit_seq == seq
    &&& e->RuntimeInit_refcount == 1
    &&& e->RuntimeInit_profile_id@ == p.profile_id@
    &&& e->RuntimeInit_profile_revision@ == p.profile_revision@
    &&& e->RuntimeInit_fidelity@ == fidelity_text(p.max_fidelity)
}

/// `b` keeps what a teardown leaves alone in `a`: the profile, the kernel,
/// reader, executable and symbol tables with their counters, the queue-id
/// counter, the trace and the allocator's capacity.
pub open spec fn keeps_registry(a: RuntimeView, b: RuntimeView) -> bool {
    &&& b.profile == a.profile
    &&& b.next_queue_id == a.next_queue_id
    &&& b.kernels == a.kernels
    &&& b.next_kernel_object == a.next_kernel_object
    &&& b.readers == a.readers
    &&& b.next_reader_id == a.next_reader_id
    &&& b.executables == a.executables
    &&& b.next_executable_id == a.next_executable_id
    &&& b.symbols == a.symbols
    &&& b.next_symbol_id == a.next_symbol_id
    &&& b.allocator.capacity == a.allocator.capacity
}

impl Runtime {
    /// Destroys the doorbell signal `h` (no kind check): marks its slot dead
    /// and bumps the generation counter.
    fn signal_destroy_doorbell(&mut self, h: PackedHandle) -> (r: Result<(), RuntimeError>)
        requires
            old(self)@.wf_core(),
        ensures
            final(self)@.wf_core(),
            r is Ok <==> (h_index(h) < old(self)@.signals.len() && old(self)@.signals[h_index(h)].live
                && old(self)@.signals[h_index(h)].generation == h_gen(h)),
            r is Err ==> r == Err::<(), RuntimeError>(RuntimeError::InvalidSignal) && final(self)@ == old(self)@,
            r is Ok ==> final(self)@ == (RuntimeView {
                signals: old(self)@.signals.update(
                    h_index(h),
                    SignalSlot { generation: old(self)@.signals[h_index(h)].generation, live: false, signal: None },
                ),
                next_generation: next_gen(old(self)@.next_generation),
                ..old(self)@
            }),
    {
        let idx = h.index() as usize;
        if idx >= self.signals.len() {
            return Err(RuntimeError::InvalidSignal);
        }
        let g = self.signals[idx].generation;
        if !self.signals[idx].live || g != h.generation() {
            return Err(RuntimeError::InvalidSignal);
        }
        self.signals.set(idx, SignalSlot { generation: g, live: false, signal: None });
        let _ = self.alloc_generation();
        Ok(())
    }

    /// Drops every queue (destroying its doorbell), signal, allocation,
    /// region, pool, agent and capture; each destroyed doorbell and each
    /// live agent bumps the generation counter.
    fn teardown(&mut self)
        requires
            old(self)@.wf_core(),
        ensures
            final(self)@.wf_core(),
            final(self)@.is_down(),
            final(self)@.refcount == old(self)@.refcount,
            final(self)@.trace == old(self)@.trace,
            keeps_registry(old(self)@, final(self)@),
            old(self)@.is_down() ==> final(self)@.next_generation == old(self)@.next_generation,
    {
        let ghost down = self@.is_down();
        let mut doorbells: Vec<PackedHandle> = Vec::new();
        while self.queues.len() > 0
            invariant
                self@.wf_core(),
                self@.refcount == old(self)@.refcount,
                self@.trace == old(self)@.trace,
                keeps_registry(old(self)@, self@),
                self@ == (RuntimeView { queues: self@.queues, ..old(self)@ }),
                down == old(self)@.is_down(),
                down ==> self@.queues.len() == 0,
                down ==> doorbells@.len() == 0,
            decreases self.queues@.len(),
        {
            let slot = self.queues.pop().unwrap();
            if let Some(q) = slot.queue {
                doorbells.push(q.doorbell);
            }
        }
        let mut k: usize = 0;
        while k < doorbells.len()
            invariant
                self@.allocator.wf(),
                all_host_rw(self@.allocator),
                self@.trace.wf(),
                1 <= self@.next_generation <= 0xFF_FFFF,
                self@.queues.len() == 0,
                keys_unique(self@.kernels),
                keys_unique(self@.readers),
                keys_unique(self@.executables),
                keys_unique(self@.symbols),
                self@.refcount == old(self)@.refcount,
                self@.trace == old(self)@.trace,
                keeps_registry(old(self)@, self@),
                k <= doorbells@.len(),
                self@.agents == old(self)@.agents,
                down == old(self)@.is_down(),
                down ==> doorbells@.len() == 0,
                down ==> self@.next_generation == old(self)@.next_generation,
            decreases doorbells@.len() - k,
        {
            let _ = self.signal_destroy_doorbell_raw(doorbells[k]);
            k = k + 1;
        }
        self.signals = Vec::new();
        self.allocator.clear_all();
        self.regions = Vec::new();
        self.pools = Vec::new();
        let mut i: usize = 0;
        while i < self.agents.len()
            invariant
                self@.allocator.wf(),
                all_host_rw(self@.allocator),
                self@.allocator.metas().len() == 0,
                self@.trace.wf(),
                1 <= self@.next_generation <= 0xFF_FFFF,
                self@.queues.len() == 0,
                self@.signals.len() == 0,
                self@.regions.len() == 0,
                self@.pools.len() == 0,
                keys_unique(self@.kernels),
                keys_unique(self@.readers),
                keys_unique(self@.executables),
                keys_unique(self@.symbols),
                self@.refcount == old(self)@.refcount,
                self@.trace == old(self)@.trace,
                keeps_registry(old(self)@, self@),
                self@.agents == old(self)@.agents,
                i <= self@.agents.len(),
                down == old(self)@.is_down(),
                down ==> self@.next_generation == old(self)@.next_generation,
            decreases self@.agents.len() - i,
        {
            if self.agents[i].live {
                let g = self.next_generation;
                self.next_generation = if g >= 0xFF_FFFF { 1 } else { g + 1 };
            }
            i = i + 1;
        }
        self.agents = Vec::new();
        self.dispatch_captures = Vec::new();
    }

    /// The slot at `h`'s index is live with `h`'s generation (whatever its
    /// kind bits say).
    pub open spec fn raw_signal_live(v: RuntimeView, h: PackedHandle) -> bool {
        &&& h_index(h) < v.signals.len()
        &&& v.signals[h_index(h)].live
        &&& v.signals[h_index(h)].generation == h_gen(h)
    }

    /// `signal_destroy_doorbell` on a state whose queue table may already be gone.
    fn signal_destroy_doorbell_raw(&mut self, h: PackedHandle) -> (r: Result<(), RuntimeError>)
        requires
            old(self)@.allocator.wf(),
            1 <= old(self)@.next_generation <= 0xFF_FFFF,
        ensures
            final(self)@ == (RuntimeView {
                signals: final(self)@.signals,
                next_generation: final(self)@.next_generation,
                ..old(self)@
            }),
            1 <= final(self)@.next_generation <= 0xFF_FFFF,
            final(self)@.signals.len() == old(self)@.signals.len(),
            Self::raw_signal_live(old(self)@, h) ==> r is Ok && final(self)@ == (RuntimeView {
                signals: old(self)@.signals.update(
                    h_index(h),
                    SignalSlot { generation: h_gen(h), live: false, signal: None },
                ),
                next_generation: next_gen(old(self)@.next_generation),
                ..old(self)@
            }),
            !Self::raw_signal_live(old(self)@, h) ==> r == Err::<(), RuntimeError>(RuntimeError::InvalidSignal)
                && final(self)@ == old(self)@,
    {
        let idx = h.index() as usize;
        if idx >= self.signals.len() {
            return Err(RuntimeError::InvalidSignal);
        }
        let g = self.signals[idx].generation;
        if !self.signals[idx].live || g != h.generation() {
            return Err(RuntimeError::InvalidSignal);
        }
        self.signals.set(idx, SignalSlot { generation: g, live: false, signal: None });
        let n = self.next_generation;
        self.next_generation = if n >= 0xFF_FFFF { 1 } else { n + 1 };
        Ok(())
    }

    /// Appends a region (or pool) for view `v` owned by `agent`, with a
    /// fresh generation and the next index.
    fn add_space(&mut self, region: bool, v: MemoryViewKind, agent: PackedHandle)
        requires
            old(self)@.wf_core(),
            region ==> old(self)@.regions.len() < 2,
            !region ==> old(self)@.pools.len() < 2,
        ensures
            final(self)@.wf_core(),
            ({
                let g = old(self)@.next_generation;
                let kind = if region { HandleKind::Region } else { HandleKind::MemoryPool };
                let t = old(self)@.space_table(kind);
                let slot = SpaceSlot {
                    generation: g,
                    live: true,
                    space: Some(bootstrap_space(v, PackedHandle(pack_spec(kind, g, t.len() as u32)), agent)),
                };
                if region {
                    final(self)@ == (RuntimeView { regions: t.push(slot), next_generation: next_gen(g), ..old(self)@ })
                } else {
                    final(self)@ == (RuntimeView { pools: t.push(slot), next_generation: next_gen(g), ..old(self)@ })
                }
            }),
    {
        let g = self.alloc_generation();
        let kind = if region { HandleKind::Region } else { HandleKind::MemoryPool };
        let index: u32 = if region { self.regions.len() as u32 } else { self.pools.len() as u32 };
        let handle = PackedHandle::pack(kind, g, index);
        let (flags, location) = match v {
            MemoryViewKind::RegionFineKernarg => (REGION_FLAGS_FINE_KERNARG, None),
            MemoryViewKind::RegionCoarse => (REGION_FLAGS_COARSE, None),
            MemoryViewKind::PoolFineHost => (AMD_POOL_FLAGS_FINE_KERNARG, Some(AMD_POOL_LOCATION_CPU)),
            MemoryViewKind::PoolCoarseDevice => (AMD_POOL_FLAGS_COARSE, Some(AMD_POOL_LOCATION_GPU)),
        };
        let space = MemorySpace {
            handle,
            kind: v,
            agent_handle: agent,
            segment: if region { REGION_SEGMENT_GLOBAL } else { AMD_SEGMENT_GLOBAL },
            global_flags: flags,
            size_bytes: SOFTGPU_POOL_BYTES,
            alloc_max_size: SOFTGPU_MAX_ALLOC_BYTES,
            runtime_alloc_allowed: true,
            granule: SOFTGPU_ALLOC_GRANULE,
            alignment: SOFTGPU_ALLOC_ALIGNMENT,
            location,
        };
        let slot = SpaceSlot { generation: g, live: true, space: Some(space) };
        if region {
            self.regions.push(slot);
        } else {
            self.pools.push(slot);
        }
    }

    /// Brings a down session up: one GPU agent, then its regions and pools.
    fn bootstrap(&mut self)
        requires
            old(self)@.wf_core(),
            old(self)@.is_down(),
            names_truncate(old(self)@.profile),
        ensures
            final(self)@.wf_core(),
            bootstrapped(final(self)@, old(self)@.next_generation),
            final(self)@.refcount == old(self)@.refcount,
            final(self)@.trace == old(self)@.trace,
            keeps_registry(old(self)@, final(self)@),
    {
        self.teardown();
        let g = self.alloc_generation();
        let handle = PackedHandle::pack(HandleKind::Agent, g, 0);
        proof { lemma_pack_round_trip(HandleKind::Agent, g, 0); }
        let mut agent = VirtualAgent::gpu_from_profile(handle, &self.profile);
        agent.feature_mask = AGENT_FEATURE_KERNEL_DISPATCH;
        self.agents.push(AgentSlot { generation: g, live: true, agent: Some(agent) });
        self.bootstrap_memory(handle);
    }

    /// Lays the two regions (fine-grained kernarg, coarse-grained) and the
    /// two pools (fine-grained host, coarse-grained device) of agent
    /// `agent` over the allocator, each with a fresh generation.
    fn bootstrap_memory(&mut self, agent: PackedHandle)
        requires
            old(self)@.wf_core(),
            old(self)@.regions.len() == 0,
            old(self)@.pools.len() == 0,
        ensures
            final(self)@.wf_core(),
            ({
                let g = old(self)@.next_generation;
                let g1 = next_gen(g);
                let g2 = next_gen(g1);
                let g3 = next_gen(g2);
                final(self)@ == (RuntimeView {
                    regions: seq![
                        SpaceSlot {
                            generation: g,
                            live: true,
                            space: Some(bootstrap_space(MemoryViewKind::RegionFineKernarg, PackedHandle(pack_spec(HandleKind::Region, g, 0)), agent)),
                        },
                        SpaceSlot {
                            generation: g1,
                            live: true,
                            space: Some(bootstrap_space(MemoryViewKind::RegionCoarse, PackedHandle(pack_spec(HandleKind::Region, g1, 1)), agent)),
                        },
                    ],
                    pools: seq![
                        SpaceSlot {
                            generation: g2,
                            live: true,
                            space: Some(bootstrap_space(MemoryViewKind::PoolFineHost, PackedHandle(pack_spec(HandleKind::MemoryPool, g2, 0)), agent)),
                        },
                        SpaceSlot {
                            generation: g3,
                            live: true,
                            space: Some(bootstrap_space(MemoryViewKind::PoolCoarseDevice, PackedHandle(pack_spec(HandleKind::MemoryPool, g3, 1)), agent)),
                        },
                    ],
                    next_generation: next_gen(g3),
                    ..old(self)@
                })
            }),
    {
        self.add_space(true, MemoryViewKind::RegionFineKernarg, agent);
        self.add_space(true, MemoryViewKind::RegionCoarse, agent);
        self.add_space(false, MemoryViewKind::PoolFineHost, agent);
        self.add_space(false, MemoryViewKind::PoolCoarseDevice, agent);
        assert(self@.regions =~= seq![self@.regions[0], self@.regions[1]]);
        assert(self@.pools =~= seq![self@.pools[0], self@.pools[1]]);
    }

    /// Takes a reference on the session; the first brings it up and traces
    /// the profile and its fidelity.
    pub fn init(&mut self) -> (r: Result<(), RuntimeError>)
        requires
            old(self)@.wf(),
            old(self)@.refcount == 0 ==> names_truncate(old(self)@.profile),
        ensures
            final(self)@.wf(),
            old(self)@.refcount == u32::MAX ==> r == Err::<(), RuntimeError>(RuntimeError::RefcountOverflow)
                && final(self)@ == old(self)@,
            old(self)@.refcount < u32::MAX ==> r is Ok && final(self)@.refcount == old(self)@.refcount + 1,
            0 < old(self)@.refcount < u32::MAX ==> final(self)@ == (RuntimeView {
                refcount: (old(self)@.refcount + 1) as u32,
                ..old(self)@
            }),
            old(self)@.refcount == 0 ==> {
                &&& bootstrapped(final(self)@, old(self)@.next_generation)
                &&& keeps_registry(old(self)@, final(self)@)
                &&& logged_one(old(self)@.trace, final(self)@.trace)
                &&& init_event(final(self)@.trace.events@.last(), bump_seq(old(self)@.trace.seq), old(self)@.profile)
            },
    {
        if self.refcount == u32::MAX {
            return Err(RuntimeError::RefcountOverflow);
        }
        if self.refcount == 0 {
            self.bootstrap();
            let seq = self.trace.next_seq();
            let e = TraceEvent::RuntimeInit {
                seq,
                refcount: 1,
                profile_id: self.profile.profile_id.clone(),
                profile_revision: self.profile.profile_revision.clone(),
                fidelity: TraceLog::fidelity_label(self.profile.max_fidelity),
            };
            self.trace.record(e);
        }
        self.refcount = self.refcount + 1;
        Ok(())
    }

    /// Drops a reference; the last one tears the session down.
    pub fn shut_down(&mut self) -> (r: Result<(), RuntimeError>)
        requires
            old(self)@.wf(),
        ensures
            final(self)@.wf(),
            old(self)@.refcount == 0 ==> r == Err::<(), RuntimeError>(RuntimeError::NotInitialized)
                && final(self)@ == old(self)@,
            old(self)@.refcount > 0 ==> {
                &&& r is Ok
                &&& final(self)@.refcount == old(self)@.refcount - 1
                &&& logged_one(old(self)@.trace, final(self)@.trace)
                &&& final(self)@.trace.events@.last() == TraceEvent::RuntimeShutdown {
                    seq: bump_seq(old(self)@.trace.seq),
                    refcount: (old(self)@.refcount - 1) as u32,
                }
            },
            old(self)@.refcount > 1 ==> final(self)@ == (RuntimeView {
                refcount: (old(self)@.refcount - 1) as u32,
                trace: final(self)@.trace,
                ..old(self)@
            }),
            old(self)@.refcount == 1 ==> final(self)@.is_down() && keeps_registry(old(self)@, final(self)@),
    {
        if self.refcount == 0 {
            return Err(RuntimeError::NotInitialized);
        }
        self.refcount = self.refcount - 1;
        let seq = self.trace.next_seq();
        self.trace.record(TraceEvent::RuntimeShutdown { seq, refcount: self.refcount });
        if self.refcount == 0 {
            self.teardown();
        }
        Ok(())
    }
}

/// What an agent query answers for `attr` about agent `a`.
pub open spec fn agent_info_matches(v: AgentInfoValue, a: VirtualAgent, attr: AgentInfoAttr) -> bool {
    match attr {
        AgentInfoAttr::Name => v matches AgentInfoValue::Name(s) && s@ == a.name@,
        AgentInfoAttr::VendorName => v matches AgentInfoValue::VendorName(s) && s@ == a.vendor_name@,
        AgentInfoAttr::Feature => v == AgentInfoValue::Feature(a.feature_mask),
        AgentInfoAttr::Device => v == AgentInfoValue::Device(a.kind),
        AgentInfoAttr::VersionMajor => v == AgentInfoValue::U16(1),
        AgentInfoAttr::VersionMinor => v == AgentInfoValue::U16(2),
    }
}

/// The name of an agent attribute in traces.
pub open spec fn agent_attr_text(attr: AgentInfoAttr) -> Seq<char> {
    match attr {
        AgentInfoAttr::Name => "name"@,
        AgentInfoAttr::VendorName => "vendor_name"@,
        AgentInfoAttr::Feature => "feature"@,
        AgentInfoAttr::Device => "device"@,
        AgentInfoAttr::VersionMajor => "version_major"@,
        AgentInfoAttr::VersionMinor => "version_minor"@,
    }
}

/// The event an agent query records.
pub open spec fn get_info_event(e: TraceEvent, seq: u64, h: PackedHandle, attr: AgentInfoAttr, outcome: Seq<char>) -> bool {
    &&& e is AgentGetInfo
    &&& e->AgentGetInfo_seq == seq
    &&& e->AgentGetInfo_agent_handle == h.0
    &&& e->AgentGetInfo_attribute@ == agent_attr_text(attr)
    &&& e->AgentGetInfo_outcome@ == outcome
}

/// What a region query answers for `attr` about `s`.
pub open spec fn region_info_spec(s: MemorySpace, attr: RegionInfoAttr) -> RegionInfoValue {
    match attr {
        RegionInfoAttr::Segment => RegionInfoValue::Segment(s.segment),
        RegionInfoAttr::GlobalFlags => RegionInfoValue::GlobalFlags(s.global_flags),
        RegionInfoAttr::Size => RegionInfoValue::Size(s.size_bytes),
        RegionInfoAttr::AllocMaxSize => RegionInfoValue::AllocMaxSize(s.alloc_max_size),
        RegionInfoAttr::RuntimeAllocAllowed => RegionInfoValue::RuntimeAllocAllowed(s.runtime_alloc_allowed),
        RegionInfoAttr::Granule => RegionInfoValue::Granule(s.granule),
        RegionInfoAttr::Alignment => RegionInfoValue::Alignment(s.alignment),
    }
}

/// What a pool query answers for `attr` about `s`.
pub open spec fn pool_info_spec(s: MemorySpace, attr: PoolInfoAttr) -> PoolInfoValue {
    match attr {
        PoolInfoAttr::Segment => PoolInfoValue::Segment(s.segment),
        PoolInfoAttr::GlobalFlags => PoolInfoValue::GlobalFlags(s.global_flags),
        PoolInfoAttr::Size => PoolInfoValue::Size(s.size_bytes),
        PoolInfoAttr::RuntimeAllocAllowed => PoolInfoValue::RuntimeAllocAllowed(s.runtime_alloc_allowed),
        PoolInfoAttr::Granule => PoolInfoValue::Granule(s.granule),
        PoolInfoAttr::Alignment => PoolInfoValue::Alignment(s.alignment),
        PoolInfoAttr::AccessibleByAll => PoolInfoValue::AccessibleByAll(true),
        PoolInfoAttr::AllocMaxSize => PoolInfoValue::AllocMaxSize(s.alloc_max_size),
        PoolInfoAttr::Location => PoolInfoValue::Location(
            match s.location {
                Some(l) => l,
                None => AMD_POOL_LOCATION_CPU,
            },
        ),
        PoolInfoAttr::RecGranule => PoolInfoValue::RecGranule(s.granule),
    }
}

/// The error a failed lookup in the table of `kind` reports.
pub open spec fn space_error(kind: HandleKind) -> RuntimeError {
    if kind == HandleKind::Region {
        RuntimeError::InvalidRegion
    } else {
        RuntimeError::InvalidPool
    }
}

impl Runtime {
    /// The agent `h` names, checked by kind, index, liveness and generation.
    fn resolve_agent(&self, h: PackedHandle) -> (r: Result<&VirtualAgent, RuntimeError>)
        ensures
            r is Ok <==> self@.agent_handle_ok(h),
            r matches Ok(a) ==> *a == self@.agent_of(h),
            r is Err ==> r == Err::<&VirtualAgent, RuntimeError>(RuntimeError::InvalidAgent),
    {
        if h.is_invalid() || h.kind() != Some(HandleKind::Agent) {
            return Err(RuntimeError::InvalidAgent);
        }
        let idx = h.index() as usize;
        if idx >= self.agents.len() {
            return Err(RuntimeError::InvalidAgent);
        }
        let slot = &self.agents[idx];
        if !slot.live || slot.generation != h.generation() {
            return Err(RuntimeError::InvalidAgent);
        }
        match &slot.agent {
            Some(a) => Ok(a),
            None => Err(RuntimeError::InvalidAgent),
        }
    }

    /// The region (or pool) `h` names in the table of `kind`.
    fn resolve_space(&self, h: PackedHandle, kind: HandleKind) -> (r: Result<&MemorySpace, RuntimeError>)
        ensures
            r is Ok <==> self@.space_handle_ok(h, kind),
            r matches Ok(sp) ==> *sp == self@.space_of(h, kind),
            r matches Err(e) ==> e == space_error(kind),
    {
        let err = if kind == HandleKind::Region { RuntimeError::InvalidRegion } else { RuntimeError::InvalidPool };
        if h.is_invalid() || h.kind() != Some(kind) {
            return Err(err);
        }
        let idx = h.index() as usize;
        let table = if kind == HandleKind::Region { &self.regions } else { &self.pools };
        if idx >= table.len() {
            return Err(err);
        }
        let slot = &table[idx];
        if !slot.live || slot.generation != h.generation() {
            return Err(err);
        }
        match &slot.space {
            Some(sp) => Ok(sp),
            None => Err(err),
        }
    }

    /// The signal `h` names.
    fn resolve_signal(&self, h: PackedHandle) -> (r: Result<SoftGpuSignal, RuntimeError>)
        ensures
            r is Ok <==> self@.signal_handle_ok(h),
            r matches Ok(sg) ==> sg == self@.signal_of(h),
            r is Err ==> r == Err::<SoftGpuSignal, RuntimeError>(RuntimeError::InvalidSignal),
    {
        if h.is_invalid() || h.kind() != Some(HandleKind::Signal) {
            return Err(RuntimeError::InvalidSignal);
        }
        let idx = h.index() as usize;
        if idx >= self.signals.len() {
            return Err(RuntimeError::InvalidSignal);
        }
        let slot = &self.signals[idx];
        if !slot.live || slot.generation != h.generation() {
            return Err(RuntimeError::InvalidSignal);
        }
        match slot.signal {
            Some(sg) => Ok(sg),
            None => Err(RuntimeError::InvalidSignal),
        }
    }

    /// The table index of the queue `h` names.
    fn resolve_queue(&self, h: PackedHandle) -> (r: Result<usize, RuntimeError>)
        ensures
            r is Ok <==> self@.queue_handle_ok(h),
            r matches Ok(i) ==> i == h_index(h),
            r is Err ==> r == Err::<usize, RuntimeError>(RuntimeError::InvalidQueue),
    {
        if h.is_invalid() || h.kind() != Some(HandleKind::Queue) {
            return Err(RuntimeError::InvalidQueue);
        }
        let idx = h.index() as usize;
        if idx >= self.queues.len() {
            return Err(RuntimeError::InvalidQueue);
        }
        let slot = &self.queues[idx];
        if !slot.live || slot.generation != h.generation() || slot.queue.is_none() {
            return Err(RuntimeError::InvalidQueue);
        }
        Ok(idx)
    }

    fn trace_get_info(&mut self, h: PackedHandle, attr: AgentInfoAttr, outcome: &str)
        requires
            old(self)@.wf(),
        ensures
            final(self)@.wf(),
            same_but_trace(old(self)@, final(self)@),
            logged_one(old(self)@.trace, final(self)@.trace),
            get_info_event(final(self)@.trace.events@.last(), bump_seq(old(self)@.trace.seq), h, attr, outcome@),
    {
        let seq = self.trace.next_seq();
        self.trace.record(
            TraceEvent::AgentGetInfo { seq, agent_handle: h.raw(), attribute: owned(attr.as_str()), outcome: owned(outcome) },
        );
    }

    /// One attribute of an agent; each answer or refusal is traced.
    pub fn agent_get_info(&mut self, h: PackedHandle, attr: AgentInfoAttr) -> (r: Result<AgentInfoValue, RuntimeError>)
        requires
            old(self)@.wf(),
        ensures
            final(self)@.wf(),
            old(self)@.refcount == 0 ==> r == Err::<AgentInfoValue, RuntimeError>(RuntimeError::NotInitialized)
                && final(self)@ == old(self)@,
            old(self)@.refcount > 0 ==> {
                &&& same_but_trace(old(self)@, final(self)@)
                &&& logged_one(old(self)@.trace, final(self)@.trace)
                &&& if old(self)@.agent_handle_ok(h) {
                    &&& r matches Ok(v) && agent_info_matches(v, old(self)@.agent_of(h), attr)
                    &&& get_info_event(final(self)@.trace.events@.last(), bump_seq(old(self)@.trace.seq), h, attr, "ok"@)
                } else {
                    &&& r == Err::<AgentInfoValue, RuntimeError>(RuntimeError::InvalidAgent)
                    &&& get_info_event(
                        final(self)@.trace.events@.last(),
                        bump_seq(old(self)@.trace.seq),
                        h,
                        attr,
                        "invalid_agent"@,
                    )
                }
            },
    {
        if !self.is_initialized() {
            return Err(RuntimeError::NotInitialized);
        }
        let value = match self.resolve_agent(h) {
            Err(e) => {
                self.trace_get_info(h, attr, e.as_str());
                return Err(e);
            },
            Ok(a) => match attr {
                AgentInfoAttr::Name => AgentInfoValue::Name(a.name.clone()),
                AgentInfoAttr::VendorName => AgentInfoValue::VendorName(a.vendor_name.clone()),
                AgentInfoAttr::Feature => AgentInfoValue::Feature(a.feature_mask),
                AgentInfoAttr::Device => AgentInfoValue::Device(a.kind),
                AgentInfoAttr::VersionMajor => AgentInfoValue::U16(1),
                AgentInfoAttr::VersionMinor => AgentInfoValue::U16(2),
            },
        };
        self.trace_get_info(h, attr, "ok");
        Ok(value)
    }

    /// One attribute of a region.
    pub fn region_get_info(&self, h: PackedHandle, attr: RegionInfoAttr) -> (r: Result<RegionInfoValue, RuntimeError>)
        ensures
            self@.refcount == 0 ==> r == Err::<RegionInfoValue, RuntimeError>(RuntimeError::NotInitialized),
            self@.refcount > 0 && !self@.space_handle_ok(h, HandleKind::Region) ==> r == Err::<
                RegionInfoValue,
                RuntimeError,
            >(RuntimeError::InvalidRegion),
            self@.refcount > 0 && self@.space_handle_ok(h, HandleKind::Region) ==> r == Ok::<RegionInfoValue, RuntimeError>(
                region_info_spec(self@.space_of(h, HandleKind::Region), attr),
            ),
    {
        if !self.is_initialized() {
            return Err(RuntimeError::NotInitialized);
        }
        let sp = self.resolve_space(h, HandleKind::Region)?;
        Ok(
            match attr {
                RegionInfoAttr::Segment => RegionInfoValue::Segment(sp.segment),
                RegionInfoAttr::GlobalFlags => RegionInfoValue::GlobalFlags(sp.global_flags),
                RegionInfoAttr::Size => RegionInfoValue::Size(sp.size_bytes),
                RegionInfoAttr::AllocMaxSize => RegionInfoValue::AllocMaxSize(sp.alloc_max_size),
                RegionInfoAttr::RuntimeAllocAllowed => RegionInfoValue::RuntimeAllocAllowed(sp.runtime_alloc_allowed),
                RegionInfoAttr::Granule => RegionInfoValue::Granule(sp.granule),
                RegionInfoAttr::Alignment => RegionInfoValue::Alignment(sp.alignment),
            },
        )
    }

    /// One attribute of a pool.
    pub fn pool_get_info(&self, h: PackedHandle, attr: PoolInfoAttr) -> (r: Result<PoolInfoValue, RuntimeError>)
        ensures
            self@.refcount == 0 ==> r == Err::<PoolInfoValue, RuntimeError>(RuntimeError::NotInitialized),
            self@.refcount > 0 && !self@.space_handle_ok(h, HandleKind::MemoryPool) ==> r == Err::<
                PoolInfoValue,
                RuntimeError,
            >(RuntimeError::InvalidPool),
            self@.refcount > 0 && self@.space_handle_ok(h, HandleKind::MemoryPool) ==> r == Ok::<PoolInfoValue, RuntimeError>(
                pool_info_spec(self@.space_of(h, HandleKind::MemoryPool), attr),
            ),
    {
        if !self.is_initialized() {
            return Err(RuntimeError::NotInitialized);
        }
        let sp = self.resolve_space(h, HandleKind::MemoryPool)?;
        Ok(
            match attr {
                PoolInfoAttr::Segment => PoolInfoValue::Segment(sp.segment),
                PoolInfoAttr::GlobalFlags => PoolInfoValue::GlobalFlags(sp.global_flags),
                PoolInfoAttr::Size => PoolInfoValue::Size(sp.size_bytes),
                PoolInfoAttr::RuntimeAllocAllowed => PoolInfoValue::RuntimeAllocAllowed(sp.runtime_alloc_allowed),
                PoolInfoAttr::Granule => PoolInfoValue::Granule(sp.granule),
                PoolInfoAttr::Alignment => PoolInfoValue::Alignment(sp.alignment),
                PoolInfoAttr::AccessibleByAll => PoolInfoValue::AccessibleByAll(true),
                PoolInfoAttr::AllocMaxSize => PoolInfoValue::AllocMaxSize(sp.alloc_max_size),
                PoolInfoAttr::Location => PoolInfoValue::Location(
                    match sp.location {
                        Some(l) => l,
                        None => AMD_POOL_LOCATION_CPU,
                    },
                ),
                PoolInfoAttr::RecGranule => PoolInfoValue::RecGranule(sp.granule),
            },
        )
    }

    /// Grants agents access to an allocation: succeeds when every agent
    /// resolves (host memory is already visible to all of them).
    pub fn agents_allow_access(&self, agents: &[PackedHandle], _ptr: u64) -> (r: Result<(), RuntimeError>)
        ensures
            self@.refcount == 0 ==> r == Err::<(), RuntimeError>(RuntimeError::NotInitialized),
            self@.refcount > 0 ==> (r is Ok <==> forall|i: int| 0 <= i < agents@.len() ==> self@.agent_handle_ok(#[trigger] agents@[i])),
            self@.refcount > 0 && r is Err ==> r == Err::<(), RuntimeError>(RuntimeError::InvalidAgent),
    {
        if !self.is_initialized() {
            return Err(RuntimeError::NotInitialized);
        }
        let mut i: usize = 0;
        while i < agents.len()
            invariant
                self@.refcount > 0,
                i <= agents@.len(),
                forall|j: int| 0 <= j < i ==> self@.agent_handle_ok(#[trigger] agents@[j]),
            decreases agents@.len() - i,
        {
            let _ = self.resolve_agent(agents[i])?;
            i = i + 1;
        }
        Ok(())
    }

    /// How agent `agent` may reach pool `pool`: allowed by default (1).
    pub fn agent_memory_pool_access(&self, agent: PackedHandle, pool: PackedHandle) -> (r: Result<u32, RuntimeError>)
        ensures
            self@.refcount == 0 ==> r == Err::<u32, RuntimeError>(RuntimeError::NotInitialized),
            self@.refcount > 0 && !self@.agent_handle_ok(agent) ==> r == Err::<u32, RuntimeError>(RuntimeError::InvalidAgent),
            self@.refcount > 0 && self@.agent_handle_ok(agent) && !self@.space_handle_ok(pool, HandleKind::MemoryPool) ==> r
                == Err::<u32, RuntimeError>(RuntimeError::InvalidPool),
            self@.refcount > 0 && self@.agent_handle_ok(agent) && self@.space_handle_ok(pool, HandleKind::MemoryPool) ==> r
                == Ok::<u32, RuntimeError>(1),
    {
        if !self.is_initialized() {
            return Err(RuntimeError::NotInitialized);
        }
        let _ = self.resolve_agent(agent)?;
        let _ = self.resolve_space(pool, HandleKind::MemoryPool)?;
        Ok(1)
    }
}

impl Runtime {
    /// Calls `callback` on each live agent in table order, tracing the walk;
    /// stops at the first error the callback returns.
    pub fn iterate_agents<F>(&mut self, mut callback: F) -> (r: Result<(), RuntimeError>) where
        F: FnMut(&VirtualAgent) -> Result<(), RuntimeError>,

        requires
            old(self)@.wf(),
            forall|f: F, a: &VirtualAgent| call_requires(f, (a,)),
        ensures
            final(self)@.wf(),
            old(self)@.refcount == 0 ==> r == Err::<(), RuntimeError>(RuntimeError::NotInitialized)
                && final(self)@ == old(self)@,
            old(self)@.refcount > 0 ==> same_but_trace(old(self)@, final(self)@),
            old(self)@.refcount > 0 && r is Ok ==> forall|i: int|
                0 <= i < old(self)@.agents.len() && (#[trigger] old(self)@.agents[i]).live ==> exists|f: F, v: Result<(), RuntimeError>|
                    call_ensures(f, (&old(self)@.agents[i].agent->0,), v) && v is Ok,
            r matches Err(e) ==> (old(self)@.refcount == 0 && e == RuntimeError::NotInitialized) || exists|
                f: F,
                a: &VirtualAgent,
            | call_ensures(f, (a,), Err::<(), RuntimeError>(e)),
    {
        if !self.is_initialized() {
            return Err(RuntimeError::NotInitialized);
        }
        let mut count: usize = 0;
        let mut k: usize = 0;
        while k < self.agents.len()
            invariant
                k <= self.agents@.len(),
                count <= k,
            decreases self.agents@.len() - k,
        {
            if self.agents[k].live {
                count = count + 1;
            }
            k = k + 1;
        }
        let seq = self.trace.next_seq();
        self.trace.record(TraceEvent::AgentIterateBegin { seq, agent_count: count });
        let mut i: usize = 0;
        while i < self.agents.len()
            invariant
                self@.wf(),
                self@.refcount > 0,
                same_but_trace(old(self)@, self@),
                i <= self@.agents.len(),
                forall|f: F, a: &VirtualAgent| call_requires(f, (a,)),
                forall|j: int|
                    0 <= j < i && (#[trigger] old(self)@.agents[j]).live ==> exists|f: F, v: Result<(), RuntimeError>|
                        call_ensures(f, (&old(self)@.agents[j].agent->0,), v) && v is Ok,
            decreases self@.agents.len() - i,
        {
            if self.agents[i].live {
                let a = match &self.agents[i].agent {
                    Some(a) => a,
                    None => {
                        return Err(RuntimeError::Internal(owned("live agent slot missing agent")));
                    },
                };
                let seq = self.trace.next_seq();
                self.trace.record(
                    TraceEvent::AgentIterateVisit { seq, agent_handle: a.handle.raw(), kind: owned(a.kind.as_str()) },
                );
                let ghost f0 = callback;
                let res = callback(a);
                proof {
                    assert(call_ensures(f0, (a,), res));
                    assert(*a == old(self)@.agents[i as int].agent->0);
                }
                if res.is_err() {
                    return res;
                }
                assert(call_ensures(f0, (&old(self)@.agents[i as int].agent->0,), res) && res is Ok);
            }
            i = i + 1;
        }
        Ok(())
    }
}

impl Runtime {
    /// Calls `callback` on each live space of `kind` owned by `agent`.
    fn iterate_spaces<F>(&self, agent: PackedHandle, kind: HandleKind, mut callback: F) -> (r: Result<(), RuntimeError>) where
        F: FnMut(&MemorySpace) -> Result<(), RuntimeError>,

        requires
            self@.wf(),
            forall|f: F, x: &MemorySpace| call_requires(f, (x,)),
        ensures
            self@.refcount == 0 ==> r == Err::<(), RuntimeError>(RuntimeError::NotInitialized),
            self@.refcount > 0 && !self@.agent_handle_ok(agent) ==> r == Err::<(), RuntimeError>(RuntimeError::InvalidAgent),
            r is Ok ==> forall|i: int|
                0 <= i < self@.space_table(kind).len() && (#[trigger] self@.space_table(kind)[i]).live
                    && self@.space_table(kind)[i].space->0.agent_handle == agent ==> exists|f: F, v: Result<(), RuntimeError>|
                    call_ensures(f, (&self@.space_table(kind)[i].space->0,), v) && v is Ok,
            r matches Err(e) ==> (self@.refcount == 0 && e == RuntimeError::NotInitialized) || (!self@.agent_handle_ok(agent)
                && e == RuntimeError::InvalidAgent) || exists|f: F, x: &MemorySpace| call_ensures(f, (x,), Err::<(), RuntimeError>(e)),
    {
        if !self.is_initialized() {
            return Err(RuntimeError::NotInitialized);
        }
        let _ = self.resolve_agent(agent)?;
        let table = if kind == HandleKind::Region { &self.regions } else { &self.pools };
        let mut i: usize = 0;
        while i < table.len()
            invariant
                self@.wf(),
                self@.refcount > 0,
                self@.agent_handle_ok(agent),
                table@ == self@.space_table(kind),
                i <= table@.len(),
                forall|f: F, x: &MemorySpace| call_requires(f, (x,)),
                forall|j: int|
                    0 <= j < i && (#[trigger] table@[j]).live && table@[j].space->0.agent_handle == agent ==> exists|
                        f: F,
                        v: Result<(), RuntimeError>,
                    | call_ensures(f, (&table@[j].space->0,), v) && v is Ok,
            decreases table@.len() - i,
        {
            if table[i].live {
                let sp = match &table[i].space {
                    Some(sp) => sp,
                    None => {
                        return Err(RuntimeError::Internal(owned("live space slot missing space")));
                    },
                };
                if sp.agent_handle == agent {
                    let ghost f0 = callback;
                    let res = callback(sp);
                    if res.is_err() {
                        return res;
                    }
                    assert(call_ensures(f0, (&table@[i as int].space->0,), res) && res is Ok);
                }
            }
            i = i + 1;
        }
        Ok(())
    }

    /// Calls `callback` on each live region of `agent` in table order; stops
    /// at the first error the callback returns.
    pub fn iterate_regions<F>(&self, agent: PackedHandle, callback: F) -> (r: Result<(), RuntimeError>) where
        F: FnMut(&MemorySpace) -> Result<(), RuntimeError>,

        requires
            self@.wf(),
            forall|f: F, x: &MemorySpace| call_requires(f, (x,)),
        ensures
            self@.refcount == 0 ==> r == Err::<(), RuntimeError>(RuntimeError::NotInitialized),
            self@.refcount > 0 && !self@.agent_handle_ok(agent) ==> r == Err::<(), RuntimeError>(RuntimeError::InvalidAgent),
            r is Ok ==> forall|i: int|
                0 <= i < self@.regions.len() && (#[trigger] self@.regions[i]).live && self@.regions[i].space->0.agent_handle
                    == agent ==> exists|f: F, v: Result<(), RuntimeError>|
                    call_ensures(f, (&self@.regions[i].space->0,), v) && v is Ok,
            r matches Err(e) ==> (self@.refcount == 0 && e == RuntimeError::NotInitialized) || (!self@.agent_handle_ok(agent)
                && e == RuntimeError::InvalidAgent) || exists|f: F, x: &MemorySpace| call_ensures(f, (x,), Err::<(), RuntimeError>(e)),
    {
        self.iterate_spaces(agent, HandleKind::Region, callback)
    }

    /// Calls `callback` on each live pool of `agent` in table order; stops at
    /// the first error the callback returns.
    pub fn iterate_pools<F>(&self, agent: PackedHandle, callback: F) -> (r: Result<(), RuntimeError>) where
        F: FnMut(&MemorySpace) -> Result<(), RuntimeError>,

        requires
            self@.wf(),
            forall|f: F, x: &MemorySpace| call_requires(f, (x,)),
        ensures
            self@.refcount == 0 ==> r == Err::<(), RuntimeError>(RuntimeError::NotInitialized),
            self@.refcount > 0 && !self@.agent_handle_ok(agent) ==> r == Err::<(), RuntimeError>(RuntimeError::InvalidAgent),
            r is Ok ==> forall|i: int|
                0 <= i < self@.pools.len() && (#[trigger] self@.pools[i]).live && self@.pools[i].space->0.agent_handle == agent
                    ==> exists|f: F, v: Result<(), RuntimeError>| call_ensures(f, (&self@.pools[i].space->0,), v) && v is Ok,
            r matches Err(e) ==> (self@.refcount == 0 && e == RuntimeError::NotInitialized) || (!self@.agent_handle_ok(agent)
                && e == RuntimeError::InvalidAgent) || exists|f: F, x: &MemorySpace| call_ensures(f, (x,), Err::<(), RuntimeError>(e)),
    {
        self.iterate_spaces(agent, HandleKind::MemoryPool, callback)
    }
}

/// The runtime error for an allocator error.
pub open spec fn alloc_error_spec(e: AllocError) -> RuntimeError {
    match e {
        AllocError::InvalidArgument => RuntimeError::InvalidArgument,
        AllocError::InvalidAllocation => RuntimeError::InvalidAllocation,
        AllocError::OutOfResources => RuntimeError::OutOfResources,
    }
}

/// The allocation `allocate` adds for `size` bytes in space `sp`.
pub open spec fn new_meta(sp: MemorySpace, size: usize, p: u64, alloc_id: u64) -> AllocationMeta {
    AllocationMeta {
        ptr: p,
        size: round_up_spec(size as nat, if sp.granule == 0 { 1 } else { sp.granule as nat }) as usize,
        space: sp.handle,
        alignment: next_pow2_spec(if sp.alignment == 0 { 1 } else { sp.alignment as nat })->0 as usize,
        alloc_id,
        host_readable: true,
        host_writable: true,
    }
}

/// Every allocation of `s` is host-readable and host-writable.
pub open spec fn metas_host_rw(s: Seq<AllocationMeta>) -> bool {
    forall|i: int| 0 <= i < s.len() ==> (#[trigger] s[i]).host_readable && s[i].host_writable
}

proof fn lemma_host_rw_metas(a: SoftGpuAllocator)
    ensures
        all_host_rw(a) <==> metas_host_rw(a.metas()),
{
    assert forall|i: int| 0 <= i < a.live@.len() implies #[trigger] a.metas()[i] == a.live@[i].meta by {}
    if metas_host_rw(a.metas()) {
        assert forall|i: int| 0 <= i < a.live@.len() implies (#[trigger] a.live@[i]).meta.host_readable
            && a.live@[i].meta.host_writable by {
            assert(a.metas()[i] == a.live@[i].meta);
        }
    }
}

fn alloc_error_of(e: AllocError) -> (r: RuntimeError)
    ensures
        r == alloc_error_spec(e),
{
    match e {
        AllocError::InvalidArgument => RuntimeError::InvalidArgument,
        AllocError::InvalidAllocation => RuntimeError::InvalidAllocation,
        AllocError::OutOfResources => RuntimeError::OutOfResources,
    }
}

impl Runtime {
    /// Allocates `size` bytes from the region or pool `space_handle`
    /// (rounded up to its granule, aligned to its alignment, zeroed); the
    /// attempt is traced.
    pub fn memory_allocate(&mut self, space_handle: PackedHandle, size: usize) -> (r: Result<u64, RuntimeError>)
        requires
            old(self)@.wf(),
        ensures
            final(self)@.wf(),
            old(self)@.refcount == 0 ==> r == Err::<u64, RuntimeError>(RuntimeError::NotInitialized)
                && final(self)@ == old(self)@,
            old(self)@.refcount > 0 && !(h_kind(space_handle) == Some(HandleKind::Region) || h_kind(space_handle) == Some(
                HandleKind::MemoryPool,
            )) ==> r == Err::<u64, RuntimeError>(RuntimeError::InvalidArgument) && final(self)@ == old(self)@,
            old(self)@.refcount > 0 && (h_kind(space_handle) == Some(HandleKind::Region) || h_kind(space_handle) == Some(
                HandleKind::MemoryPool,
            )) ==> ({
                let k = h_kind(space_handle)->0;
                if !old(self)@.space_handle_ok(space_handle, k) {
                    r == Err::<u64, RuntimeError>(space_error(k)) && final(self)@ == old(self)@
                } else if !old(self)@.space_of(space_handle, k).runtime_alloc_allowed {
                    r == Err::<u64, RuntimeError>(RuntimeError::InvalidAllocation) && final(self)@ == old(self)@
                } else {
                    let sp = old(self)@.space_of(space_handle, k);
                    &&& final(self)@ == (RuntimeView {
                        allocator: final(self)@.allocator,
                        trace: final(self)@.trace,
                        ..old(self)@
                    })
                    &&& logged_one(old(self)@.trace, final(self)@.trace)
                    &&& (final(self)@.trace.events@.last() matches TraceEvent::MemoryAllocate {
                        seq,
                        space_handle: sh,
                        size: sz,
                        ptr,
                        outcome,
                    } && seq == bump_seq(old(self)@.trace.seq) && sh == space_handle.0 && sz == size && ptr == (match r {
                        Ok(p) => p,
                        Err(_) => 0,
                    }))
                    &&& size == 0 ==> r == Err::<u64, RuntimeError>(RuntimeError::InvalidArgument)
                    &&& size != 0 && size > sp.alloc_max_size ==> r == Err::<u64, RuntimeError>(RuntimeError::InvalidAllocation)
                    &&& r is Err ==> final(self)@.allocator.metas() == old(self)@.allocator.metas()
                    &&& r matches Ok(p) ==> p != 0 && final(self)@.allocator.metas() == old(self)@.allocator.metas().push(
                        new_meta(sp, size, p, old(self)@.allocator.next_alloc_id),
                    )
                }
            }),
    {
        if !self.is_initialized() {
            return Err(RuntimeError::NotInitialized);
        }
        let kind = match space_handle.kind() {
            Some(k) => k,
            None => {
                return Err(RuntimeError::InvalidArgument);
            },
        };
        if kind != HandleKind::Region && kind != HandleKind::MemoryPool {
            return Err(RuntimeError::InvalidArgument);
        }
        let sp = match self.resolve_space(space_handle, kind) {
            Ok(sp) => *sp,
            Err(e) => {
                return Err(e);
            },
        };
        if !sp.runtime_alloc_allowed {
            return Err(RuntimeError::InvalidAllocation);
        }
        proof { lemma_host_rw_metas(self.allocator); }
        let result = self.allocator.allocate(sp.handle, size, sp.granule, sp.alignment, sp.alloc_max_size);
        proof {
            lemma_host_rw_metas(self.allocator);
        }
        let (ptr, outcome) = match result {
            Ok(p) => (p, "ok"),
            Err(AllocError::InvalidArgument) => (0u64, "invalid_argument"),
            Err(AllocError::InvalidAllocation) => (0u64, "invalid_allocation"),
            Err(AllocError::OutOfResources) => (0u64, "out_of_resources"),
        };
        let seq = self.trace.next_seq();
        self.trace.record(
            TraceEvent::MemoryAllocate { seq, space_handle: space_handle.raw(), size, ptr, outcome: owned(outcome) },
        );
        match result {
            Ok(p) => Ok(p),
            Err(e) => Err(alloc_error_of(e)),
        }
    }
}

impl Runtime {
    /// Frees the allocation based at `ptr`; the attempt is traced.
    pub fn memory_free(&mut self, ptr: u64) -> (r: Result<(), RuntimeError>)
        requires
            old(self)@.wf(),
        ensures
            final(self)@.wf(),
            old(self)@.refcount == 0 ==> r == Err::<(), RuntimeError>(RuntimeError::NotInitialized)
                && final(self)@ == old(self)@,
            old(self)@.refcount > 0 ==> {
                let metas = old(self)@.allocator.metas();
                &&& final(self)@ == (RuntimeView { allocator: final(self)@.allocator, trace: final(self)@.trace, ..old(self)@ })
                &&& logged_one(old(self)@.trace, final(self)@.trace)
                &&& (final(self)@.trace.events@.last() matches TraceEvent::MemoryFree { seq, ptr: p, outcome } && seq
                    == bump_seq(old(self)@.trace.seq) && p == ptr && outcome@ == (if r is Ok {
                    "ok"@
                } else {
                    "invalid_argument"@
                }))
                &&& r is Ok <==> (ptr != 0 && exists|i: int| 0 <= i < metas.len() && metas[i].ptr == ptr)
                &&& r is Err ==> r == Err::<(), RuntimeError>(RuntimeError::InvalidArgument)
                    && final(self)@.allocator.metas() == metas
                &&& r is Ok ==> exists|i: int|
                    0 <= i < metas.len() && metas[i].ptr == ptr && final(self)@.allocator.metas() == metas.remove(i)
            },
    {
        if !self.is_initialized() {
            return Err(RuntimeError::NotInitialized);
        }
        proof { lemma_host_rw_metas(self.allocator); }
        let ghost m0 = self.allocator.metas();
        let result = self.allocator.free(ptr);
        proof {
            if result is Ok {
                let i = choose|i: int|
                    0 <= i < m0.len() && m0[i] == result->Ok_0 && result->Ok_0.ptr == ptr && self.allocator.metas()
                        == m0.remove(i) && self.allocator.bytes_in_use == old(self)@.allocator.bytes_in_use
                        - result->Ok_0.size;
                assert forall|k: int| 0 <= k < self.allocator.metas().len() implies (#[trigger] self.allocator.metas()[k]).host_readable
                    && self.allocator.metas()[k].host_writable by {
                    let ok = if k < i { k } else { k + 1 };
                    assert(self.allocator.metas()[k] == m0[ok]);
                }
            }
            lemma_host_rw_metas(self.allocator);
        }
        let ok = result.is_ok();
        let seq = self.trace.next_seq();
        self.trace.record(
            TraceEvent::MemoryFree { seq, ptr, outcome: owned(if ok { "ok" } else { "invalid_argument" }) },
        );
        if ok {
            Ok(())
        } else {
            Err(RuntimeError::InvalidArgument)
        }
    }

    /// The allocation based at `ptr`.
    pub fn allocation_lookup(&self, ptr: u64) -> (r: Result<AllocationMeta, RuntimeError>)
        ensures
            self@.refcount == 0 ==> r == Err::<AllocationMeta, RuntimeError>(RuntimeError::NotInitialized),
            self@.refcount > 0 ==> match r {
                Ok(m) => ptr != 0 && exists|i: int|
                    0 <= i < self@.allocator.metas().len() && self@.allocator.metas()[i] == m && m.ptr == ptr,
                Err(e) => e == RuntimeError::InvalidArgument && (ptr == 0 || forall|i: int|
                    0 <= i < self@.allocator.metas().len() ==> self@.allocator.metas()[i].ptr != ptr),
            },
    {
        if !self.is_initialized() {
            return Err(RuntimeError::NotInitialized);
        }
        let found = self.allocator.lookup(ptr);
        assert(self@.allocator == self.allocator);
        match found {
            Some(m) => Ok(m),
            None => Err(RuntimeError::InvalidArgument),
        }
    }

    /// Copies `size` bytes from `src` to `dst`; both ranges must lie inside
    /// live allocations of this session. Afterwards `dst..dst + size` holds
    /// what `src..src + size` held.
    pub fn memory_copy(&mut self, dst: u64, src: u64, size: usize) -> (r: Result<(), RuntimeError>)
        requires
            old(self)@.wf(),
        ensures
            final(self)@.wf(),
            old(self)@.refcount == 0 ==> r == Err::<(), RuntimeError>(RuntimeError::NotInitialized)
                && final(self)@ == old(self)@,
            old(self)@.refcount > 0 ==> {
                &&& final(self)@ == (RuntimeView { allocator: final(self)@.allocator, ..old(self)@ })
                &&& final(self)@.allocator.metas() == old(self)@.allocator.metas()
                &&& r is Ok <==> (dst != 0 && src != 0 && window_exists(old(self)@.allocator, src, size as nat)
                    && window_exists(old(self)@.allocator, dst, size as nat))
                &&& r is Err ==> r == Err::<(), RuntimeError>(RuntimeError::InvalidArgument) && final(self)@ == old(self)@
                &&& r is Ok ==> window(final(self)@.allocator, dst, size as nat) == window(old(self)@.allocator, src, size as nat)
            },
    {
        if !self.is_initialized() {
            return Err(RuntimeError::NotInitialized);
        }
        if dst == 0 || src == 0 {
            return Err(RuntimeError::InvalidArgument);
        }
        let mut buf: Vec<u8> = Vec::new();
        crate::bytes::push_zeros(&mut buf, size);
        let ghost a0 = self.allocator;
        match self.allocator.read_bytes_at(src, buf.as_mut_slice()) {
            Ok(()) => {},
            Err(_) => {
                proof {
                    if window_exists(a0, src, size as nat) {
                        let i = choose|i: int| 0 <= i < a0.live@.len() && #[trigger] covers(a0.live@[i].meta, src) && src
                            - a0.live@[i].meta.ptr + size <= a0.live@[i].meta.size;
                        assert(a0.live@[i].meta.host_readable);
                    }
                }
                return Err(RuntimeError::InvalidArgument);
            },
        }
        proof {
            let i = choose|i: int|
                0 <= i < a0.live@.len() && covers(a0.live@[i].meta, src) && buf@ == a0.live@[i].data@.subrange(
                    src - a0.live@[i].meta.ptr,
                    src - a0.live@[i].meta.ptr + size,
                );
            a0.lemma_cover_unique(src, i);
            assert(src - a0.live@[i].meta.ptr + size <= a0.live@[i].meta.size);
            lemma_window_at(a0, src, size as nat, i);
        }
        match self.allocator.write_bytes_at(dst, buf.as_slice()) {
            Ok(()) => {},
            Err(_) => {
                proof {
                    if window_exists(a0, dst, size as nat) {
                        let i = choose|i: int| 0 <= i < a0.live@.len() && #[trigger] covers(a0.live@[i].meta, dst) && dst
                            - a0.live@[i].meta.ptr + size <= a0.live@[i].meta.size;
                        assert(a0.live@[i].meta.host_writable);
                    }
                    assert(self.allocator == a0);
                }
                return Err(RuntimeError::InvalidArgument);
            },
        }
        proof {
            let a1 = self.allocator;
            let i = choose|i: int|
                0 <= i < a0.live@.len() && covers(a0.live@[i].meta, dst) && {
                    let off = dst - a0.live@[i].meta.ptr;
                    let d0 = a0.live@[i].data@;
                    &&& a1.live@[i].data@ == d0.subrange(0, off) + buf@ + d0.subrange(off + buf@.len(), d0.len() as int)
                    &&& forall|j: int| 0 <= j < a0.live@.len() && j != i ==> #[trigger] a1.live@[j] == a0.live@[j]
                };
            a0.lemma_cover_unique(dst, i);
            assert(dst - a0.live@[i].meta.ptr + size <= a0.live@[i].meta.size);
            assert(a1.metas()[i] == a0.metas()[i]);
            assert(a1.live@[i].meta == a0.live@[i].meta);
            lemma_window_at(a1, dst, size as nat, i);
            let off = dst - a0.live@[i].meta.ptr;
            assert(a1.live@[i].data@.subrange(off as int, off + size) =~= buf@);
            lemma_host_rw_metas(a0);
            lemma_host_rw_metas(a1);
        }
        Ok(())
    }
}

/// Number of live slots in a queue table.
pub open spec fn live_queues(s: Seq<QueueSlot>) -> nat
    decreases s.len(),
{
    if s.len() == 0 {
        0
    } else {
        live_queues(s.drop_last()) + if s.last().live {
            1nat
        } else {
            0nat
        }
    }
}

/// The event a signal or doorbell creation records.
pub open spec fn signal_create_event(e: TraceEvent, seq: u64, h: PackedHandle, initial: i64) -> bool {
    e == TraceEvent::SignalCreate { seq, signal_handle: h.0, initial }
}

/// The queue index a doorbell store reaches: the first slot holding a
/// queue with id `qid`.
pub open spec fn queue_pos(queues: Seq<QueueSlot>, qid: u64, i: int) -> bool {
    &&& 0 <= i < queues.len()
    &&& queues[i].queue matches Some(q) && q.id == qid
    &&& forall|j: int| 0 <= j < i ==> !((#[trigger] queues[j]).queue matches Some(q) && q.id == qid)
}

impl Runtime {
    /// Creates a signal holding `initial`; traced.
    pub fn signal_create(&mut self, initial: i64) -> (r: Result<PackedHandle, RuntimeError>)
        requires
            old(self)@.wf(),
        ensures
            final(self)@.wf(),
            old(self)@.refcount == 0 ==> r == Err::<PackedHandle, RuntimeError>(RuntimeError::NotInitialized)
                && final(self)@ == old(self)@,
            old(self)@.refcount > 0 ==> {
                let g = old(self)@.next_generation;
                let h = PackedHandle(pack_spec(HandleKind::Signal, g, old(self)@.signals.len() as u32));
                &&& r == Ok::<PackedHandle, RuntimeError>(h)
                &&& final(self)@ == (RuntimeView {
                    signals: old(self)@.signals.push(
                        SignalSlot {
                            generation: g,
                            live: true,
                            signal: Some(
                                SoftGpuSignal { handle: h, value: initial, cancelled: false, is_doorbell: false, queue_id: None },
                            ),
                        },
                    ),
                    next_generation: next_gen(g),
                    trace: final(self)@.trace,
                    ..old(self)@
                })
                &&& logged_one(old(self)@.trace, final(self)@.trace)
                &&& signal_create_event(final(self)@.trace.events@.last(), bump_seq(old(self)@.trace.seq), h, initial)
                &&& old(self)@.signals.len() < 0x1_0000_0000 ==> final(self)@.signal_handle_ok(h) && final(self)@.signal_of(h).value
                    == initial
            },
    {
        if !self.is_initialized() {
            return Err(RuntimeError::NotInitialized);
        }
        let g = self.alloc_generation();
        let index = self.signals.len() as u32;
        let h = PackedHandle::pack(HandleKind::Signal, g, index);
        self.signals.push(SignalSlot { generation: g, live: true, signal: Some(SoftGpuSignal::new(h, initial)) });
        proof { lemma_pack_round_trip(HandleKind::Signal, g, index); }
        let seq = self.trace.next_seq();
        self.trace.record(TraceEvent::SignalCreate { seq, signal_handle: h.raw(), initial });
        Ok(h)
    }

    /// Destroys a signal; a queue's doorbell cannot be destroyed on its own.
    pub fn signal_destroy(&mut self, h: PackedHandle) -> (r: Result<(), RuntimeError>)
        requires
            old(self)@.wf(),
        ensures
            final(self)@.wf(),
            old(self)@.refcount == 0 ==> r == Err::<(), RuntimeError>(RuntimeError::NotInitialized)
                && final(self)@ == old(self)@,
            old(self)@.refcount > 0 && !old(self)@.signal_handle_ok(h) ==> r == Err::<(), RuntimeError>(
                RuntimeError::InvalidSignal,
            ) && final(self)@ == old(self)@,
            old(self)@.refcount > 0 && old(self)@.signal_handle_ok(h) && old(self)@.signal_of(h).is_doorbell ==> r == Err::<
                (),
                RuntimeError,
            >(RuntimeError::InvalidArgument) && final(self)@ == old(self)@,
            old(self)@.refcount > 0 && old(self)@.signal_handle_ok(h) && !old(self)@.signal_of(h).is_doorbell ==> {
                &&& r is Ok
                &&& final(self)@ == (RuntimeView {
                    signals: old(self)@.signals.update(
                        h_index(h),
                        SignalSlot { generation: h_gen(h), live: false, signal: None },
                    ),
                    next_generation: next_gen(old(self)@.next_generation),
                    trace: final(self)@.trace,
                    ..old(self)@
                })
                &&& logged_one(old(self)@.trace, final(self)@.trace)
                &&& final(self)@.trace.events@.last() == TraceEvent::SignalDestroy {
                    seq: bump_seq(old(self)@.trace.seq),
                    signal_handle: h.0,
                }
                &&& !final(self)@.signal_handle_ok(h)
            },
    {
        if !self.is_initialized() {
            return Err(RuntimeError::NotInitialized);
        }
        let sg = self.resolve_signal(h)?;
        if sg.is_doorbell {
            return Err(RuntimeError::InvalidArgument);
        }
        let idx = h.index() as usize;
        let g = self.signals[idx].generation;
        self.signals.set(idx, SignalSlot { generation: g, live: false, signal: None });
        let _ = self.alloc_generation();
        let seq = self.trace.next_seq();
        self.trace.record(TraceEvent::SignalDestroy { seq, signal_handle: h.raw() });
        Ok(())
    }

    /// The value a signal holds.
    pub fn signal_load(&self, h: PackedHandle) -> (r: Result<i64, RuntimeError>)
        ensures
            self@.refcount == 0 ==> r == Err::<i64, RuntimeError>(RuntimeError::NotInitialized),
            self@.refcount > 0 && !self@.signal_handle_ok(h) ==> r == Err::<i64, RuntimeError>(RuntimeError::InvalidSignal),
            self@.refcount > 0 && self@.signal_handle_ok(h) ==> r == Ok::<i64, RuntimeError>(self@.signal_of(h).value),
    {
        if !self.is_initialized() {
            return Err(RuntimeError::NotInitialized);
        }
        Ok(self.resolve_signal(h)?.load())
    }

    /// A copy of the signal `h` names, to wait on outside the session.
    pub fn signal_arc(&self, h: PackedHandle) -> (r: Result<SoftGpuSignal, RuntimeError>)
        ensures
            self@.refcount == 0 ==> r == Err::<SoftGpuSignal, RuntimeError>(RuntimeError::NotInitialized),
            self@.refcount > 0 && !self@.signal_handle_ok(h) ==> r == Err::<SoftGpuSignal, RuntimeError>(
                RuntimeError::InvalidSignal,
            ),
            self@.refcount > 0 && self@.signal_handle_ok(h) ==> r == Ok::<SoftGpuSignal, RuntimeError>(self@.signal_of(h)),
    {
        if !self.is_initialized() {
            return Err(RuntimeError::NotInitialized);
        }
        self.resolve_signal(h)
    }

    /// Waits on a signal for condition code `condition` against `compare`.
    /// Nothing else can store to the signal while the session is held, so
    /// the answer is decided at once; an unbounded wait must be one that is
    /// already satisfied.
    pub fn signal_wait(
        &self,
        h: PackedHandle,
        condition: u32,
        compare: i64,
        timeout_hint_ns: u64,
        wait_state_hint: u32,
    ) -> (r: Result<SignalWaitOutcome, RuntimeError>)
        requires
            self@.refcount > 0 && self@.signal_handle_ok(h) && condition_of(condition) is Some && timeout_hint_ns == u64::MAX
                ==> self@.signal_of(h).cancelled || holds(condition_of(condition)->0, self@.signal_of(h).value, compare),
        ensures
            self@.refcount == 0 ==> r == Err::<SignalWaitOutcome, RuntimeError>(RuntimeError::NotInitialized),
            self@.refcount > 0 && !self@.signal_handle_ok(h) ==> r == Err::<SignalWaitOutcome, RuntimeError>(
                RuntimeError::InvalidSignal,
            ),
            self@.refcount > 0 && self@.signal_handle_ok(h) && condition_of(condition) is None ==> r == Err::<
                SignalWaitOutcome,
                RuntimeError,
            >(RuntimeError::InvalidArgument),
            self@.refcount > 0 && self@.signal_handle_ok(h) && condition_of(condition) is Some ==> r == Ok::<
                SignalWaitOutcome,
                RuntimeError,
            >(
                wait_spec(
                    self@.signal_of(h).value,
                    self@.signal_of(h).cancelled,
                    condition_of(condition)->0,
                    compare,
                ),
            ),
    {
        let sg = self.signal_arc(h)?;
        let cond = match SignalCondition::from_u32(condition) {
            Some(c) => c,
            None => {
                return Err(RuntimeError::InvalidArgument);
            },
        };
        Ok(sg.wait(cond, compare, timeout_hint_ns, wait_state_hint))
    }

    /// Stores into a completion signal without doorbell side effects;
    /// refuses cancelled signals and doorbells.
    fn signal_store_plain(&mut self, h: PackedHandle, value: i64) -> (r: Result<(), RuntimeError>)
        requires
            old(self)@.wf(),
        ensures
            final(self)@.wf(),
            (old(self)@.signal_handle_ok(h) && !old(self)@.signal_of(h).cancelled && !old(self)@.signal_of(h).is_doorbell)
                ==> r is Ok && final(self)@ == (RuntimeView {
                signals: old(self)@.signals.update(
                    h_index(h),
                    SignalSlot {
                        signal: Some(SoftGpuSignal { value, ..old(self)@.signal_of(h) }),
                        ..old(self)@.signals[h_index(h)]
                    },
                ),
                ..old(self)@
            }),
            !(old(self)@.signal_handle_ok(h) && !old(self)@.signal_of(h).cancelled && !old(self)@.signal_of(h).is_doorbell)
                ==> r == Err::<(), RuntimeError>(RuntimeError::InvalidSignal) && final(self)@ == old(self)@,
    {
        let mut sg = self.resolve_signal(h)?;
        if sg.is_cancelled() || sg.is_doorbell {
            return Err(RuntimeError::InvalidSignal);
        }
        sg.store(value);
        let idx = h.index() as usize;
        let g = self.signals[idx].generation;
        let live = self.signals[idx].live;
        self.signals.set(idx, SignalSlot { generation: g, live, signal: Some(sg) });
        Ok(())
    }
}

/// `v` with queue `q` put back into slot `i`.
pub open spec fn with_queue(v: RuntimeView, i: int, q: SoftGpuQueue) -> RuntimeView {
    RuntimeView { queues: v.queues.update(i, QueueSlot { queue: Some(q), ..v.queues[i] }), ..v }
}

/// The queue a fresh `queue_create` builds.
pub open spec fn fresh_queue(
    q: SoftGpuQueue,
    handle: PackedHandle,
    agent: PackedHandle,
    id: u64,
    size: u32,
    doorbell: PackedHandle,
) -> bool {
    &&& q.wf()
    &&& q.handle == handle
    &&& q.agent_handle == agent
    &&& q.id == id
    &&& q.size == size
    &&& q.doorbell == doorbell
    &&& fresh_ring(q.packets@, size as nat)
    &&& q.write_index == 0
    &&& q.read_index == 0
    &&& q.doorbell_stores == 0
    &&& q.observed_through == 0
    &&& q.observed_ids@ == Set::<u64>::empty()
}

impl Runtime {
    /// Removes the queue from slot `i` (the slot keeps everything else).
    fn take_queue(&mut self, i: usize) -> (r: Option<SoftGpuQueue>)
        requires
            i < old(self)@.queues.len(),
        ensures
            r == old(self)@.queues[i as int].queue,
            final(self)@ == (RuntimeView {
                queues: old(self)@.queues.update(i as int, QueueSlot { queue: None, ..old(self)@.queues[i as int] }),
                ..old(self)@
            }),
    {
        let ghost q0 = self.queues@;
        let slot = self.queues.remove(i);
        let QueueSlot { generation, live, queue, abi } = slot;
        self.queues.insert(i, QueueSlot { generation, live, queue: None, abi });
        assert(self.queues@ =~= q0.update(i as int, QueueSlot { queue: None, ..q0[i as int] }));
        queue
    }

    /// Puts queue `q` into slot `i`.
    fn put_queue(&mut self, i: usize, q: SoftGpuQueue)
        requires
            i < old(self)@.queues.len(),
        ensures
            final(self)@ == with_queue(old(self)@, i as int, q),
    {
        let ghost q0 = self.queues@;
        let slot = self.queues.remove(i);
        let QueueSlot { generation, live, queue: _, abi } = slot;
        self.queues.insert(i, QueueSlot { generation, live, queue: Some(q), abi });
        assert(self.queues@ =~= q0.update(i as int, QueueSlot { queue: Some(q), ..q0[i as int] }));
    }

    fn count_live_queues(&self) -> (n: usize)
        ensures
            n == live_queues(self@.queues),
    {
        let mut n: usize = 0;
        let mut i: usize = 0;
        while i < self.queues.len()
            invariant
                i <= self.queues@.len(),
                n == live_queues(self.queues@.subrange(0, i as int)),
                n <= i,
            decreases self.queues@.len() - i,
        {
            assert(self.queues@.subrange(0, i + 1).drop_last() =~= self.queues@.subrange(0, i as int));
            if self.queues[i].live {
                n = n + 1;
            }
            i = i + 1;
        }
        assert(self.queues@.subrange(0, i as int) =~= self.queues@);
        n
    }

    /// Creates a queue of `size` packets for `agent`: a doorbell signal, a
    /// ring whose headers are all `INVALID`, and zeroed indexes; traced.
    pub fn queue_create(&mut self, agent: PackedHandle, size: u32, type_: u32) -> (r: Result<PackedHandle, RuntimeError>)
        requires
            old(self)@.wf(),
        ensures
            final(self)@.wf(),
            r is Err ==> final(self)@ == old(self)@,
            old(self)@.refcount == 0 ==> r == Err::<PackedHandle, RuntimeError>(RuntimeError::NotInitialized),
            old(self)@.refcount > 0 && !old(self)@.agent_handle_ok(agent) ==> r == Err::<PackedHandle, RuntimeError>(
                RuntimeError::InvalidAgent,
            ),
            old(self)@.refcount > 0 && old(self)@.agent_handle_ok(agent) && (!pow2_spec(size) || size < SOFTGPU_QUEUE_MIN_SIZE
                || size > SOFTGPU_QUEUE_MAX_SIZE) ==> r == Err::<PackedHandle, RuntimeError>(RuntimeError::InvalidArgument),
            old(self)@.refcount > 0 && old(self)@.agent_handle_ok(agent) && pow2_spec(size) && SOFTGPU_QUEUE_MIN_SIZE <= size
                <= SOFTGPU_QUEUE_MAX_SIZE && type_ != QUEUE_TYPE_MULTI && type_ != QUEUE_TYPE_SINGLE ==> r == Err::<
                PackedHandle,
                RuntimeError,
            >(RuntimeError::InvalidQueueCreation),
            old(self)@.refcount > 0 && old(self)@.agent_handle_ok(agent) && pow2_spec(size) && SOFTGPU_QUEUE_MIN_SIZE <= size
                <= SOFTGPU_QUEUE_MAX_SIZE && (type_ == QUEUE_TYPE_MULTI || type_ == QUEUE_TYPE_SINGLE)
                && old(self)@.live_queue_count() >= SOFTGPU_QUEUES_MAX ==> r == Err::<PackedHandle, RuntimeError>(
                RuntimeError::OutOfResources,
            ),
            old(self)@.refcount > 0 && old(self)@.agent_handle_ok(agent) && pow2_spec(size) && SOFTGPU_QUEUE_MIN_SIZE <= size
                <= SOFTGPU_QUEUE_MAX_SIZE && (type_ == QUEUE_TYPE_MULTI || type_ == QUEUE_TYPE_SINGLE)
                && old(self)@.live_queue_count() < SOFTGPU_QUEUES_MAX ==> r is Ok,
            r matches Ok(h) ==> {
                let g = old(self)@.next_generation;
                let g2 = next_gen(g);
                let qid = old(self)@.next_queue_id;
                let doorbell = PackedHandle(pack_spec(HandleKind::Signal, g, old(self)@.signals.len() as u32));
                &&& old(self)@.refcount > 0
                &&& old(self)@.live_queue_count() < SOFTGPU_QUEUES_MAX
                &&& h == PackedHandle(pack_spec(HandleKind::Queue, g2, old(self)@.queues.len() as u32))
                &&& final(self)@.signals == old(self)@.signals.push(
                    SignalSlot {
                        generation: g,
                        live: true,
                        signal: Some(
                            SoftGpuSignal {
                                handle: doorbell,
                                value: 0,
                                cancelled: false,
                                is_doorbell: true,
                                queue_id: Some(qid),
                            },
                        ),
                    },
                )
                &&& final(self)@.queues.len() == old(self)@.queues.len() + 1
                &&& final(self)@.queues.drop_last() == old(self)@.queues
                &&& final(self)@.queues.last().generation == g2
                &&& final(self)@.queues.last().live
                &&& final(self)@.queues.last().abi == (QueueAbi {
                    type_,
                    features: QUEUE_FEATURE_KERNEL_DISPATCH,
                    doorbell_signal: doorbell.0,
                    size,
                    reserved1: 0,
                    id: qid,
                })
                &&& final(self)@.queues.last().queue matches Some(q) && fresh_queue(q, h, agent, qid, size, doorbell)
                &&& old(self)@.queues.len() < 0x1_0000_0000 ==> final(self)@.queue_handle_ok(h)
                &&& old(self)@.signals.len() < 0x1_0000_0000 ==> final(self)@.signal_handle_ok(doorbell)
                &&& final(self)@.next_generation == next_gen(g2)
                &&& final(self)@.next_queue_id == (if qid == u64::MAX { u64::MAX } else { (qid + 1) as u64 })
                &&& final(self)@ == (RuntimeView {
                    signals: final(self)@.signals,
                    queues: final(self)@.queues,
                    next_generation: final(self)@.next_generation,
                    next_queue_id: final(self)@.next_queue_id,
                    trace: final(self)@.trace,
                    ..old(self)@
                })
            },
    {
        if !self.is_initialized() {
            return Err(RuntimeError::NotInitialized);
        }
        let _ = self.resolve_agent(agent)?;
        if size == 0 || !is_power_of_two(size) {
            return Err(RuntimeError::InvalidArgument);
        }
        if size < SOFTGPU_QUEUE_MIN_SIZE || size > SOFTGPU_QUEUE_MAX_SIZE {
            return Err(RuntimeError::InvalidArgument);
        }
        if type_ != QUEUE_TYPE_MULTI && type_ != QUEUE_TYPE_SINGLE {
            return Err(RuntimeError::InvalidQueueCreation);
        }
        let live = self.count_live_queues();
        if live >= SOFTGPU_QUEUES_MAX as usize {
            return Err(RuntimeError::OutOfResources);
        }
        let qid = self.next_queue_id;
        self.next_queue_id = if qid == u64::MAX { u64::MAX } else { qid + 1 };
        let g = self.alloc_generation();
        let dindex = self.signals.len() as u32;
        let doorbell = PackedHandle::pack(HandleKind::Signal, g, dindex);
        self.signals.push(
            SignalSlot { generation: g, live: true, signal: Some(SoftGpuSignal::new_doorbell(doorbell, 0, qid)) },
        );
        let seq = self.trace.next_seq();
        self.trace.record(TraceEvent::SignalCreate { seq, signal_handle: doorbell.raw(), initial: 0 });
        let g2 = self.alloc_generation();
        let qindex = self.queues.len() as u32;
        let handle = PackedHandle::pack(HandleKind::Queue, g2, qindex);
        let q = SoftGpuQueue::new(handle, agent, qid, size, doorbell);
        let abi = QueueAbi {
            type_,
            features: QUEUE_FEATURE_KERNEL_DISPATCH,
            doorbell_signal: doorbell.raw(),
            size,
            reserved1: 0,
            id: qid,
        };
        let ghost q0 = self@.queues;
        self.queues.push(QueueSlot { generation: g2, live: true, queue: Some(q), abi });
        proof {
            lemma_pack_round_trip(HandleKind::Queue, g2, qindex);
            lemma_pack_round_trip(HandleKind::Signal, g, dindex);
        }
        proof {
            assert(self@.queues.drop_last() =~= q0);
        }
        let seq2 = self.trace.next_seq();
        self.trace.record(TraceEvent::QueueCreate { seq: seq2, queue_id: qid, size, agent_handle: agent.raw() });
        Ok(handle)
    }

    /// The ABI fields a producer reads for queue `h`.
    pub fn queue_abi(&self, h: PackedHandle) -> (r: Result<QueueAbi, RuntimeError>)
        ensures
            self@.refcount == 0 ==> r == Err::<QueueAbi, RuntimeError>(RuntimeError::NotInitialized),
            self@.refcount > 0 && !self@.queue_handle_ok(h) ==> r == Err::<QueueAbi, RuntimeError>(RuntimeError::InvalidQueue),
            self@.refcount > 0 && self@.queue_handle_ok(h) ==> r == Ok::<QueueAbi, RuntimeError>(self@.queues[h_index(h)].abi),
    {
        if !self.is_initialized() {
            return Err(RuntimeError::NotInitialized);
        }
        let i = self.resolve_queue(h)?;
        Ok(self.queues[i].abi)
    }

    /// Destroys queue `h` and its doorbell; traced.
    pub fn queue_destroy(&mut self, h: PackedHandle) -> (r: Result<(), RuntimeError>)
        requires
            old(self)@.wf(),
        ensures
            final(self)@.wf(),
            old(self)@.refcount == 0 ==> r == Err::<(), RuntimeError>(RuntimeError::NotInitialized)
                && final(self)@ == old(self)@,
            old(self)@.refcount > 0 && !old(self)@.queue_handle_ok(h) ==> r == Err::<(), RuntimeError>(RuntimeError::InvalidQueue)
                && final(self)@ == old(self)@,
            old(self)@.refcount > 0 && old(self)@.queue_handle_ok(h) ==> {
                &&& r is Ok
                &&& final(self)@.queues.len() == old(self)@.queues.len()
                &&& !final(self)@.queues[h_index(h)].live
                &&& final(self)@.queues[h_index(h)].queue is None
                &&& forall|j: int| 0 <= j < old(self)@.queues.len() && j != h_index(h) ==> final(self)@.queues[j] == old(
                    self,
                )@.queues[j]
                &&& !final(self)@.queue_handle_ok(h)
                &&& final(self)@.agents == old(self)@.agents
                &&& final(self)@.allocator == old(self)@.allocator
                &&& final(self)@.signals.len() == old(self)@.signals.len()
                &&& final(self)@.trace.events@.last() == TraceEvent::QueueDestroy {
                    seq: final(self)@.trace.seq,
                    queue_id: old(self)@.queue_of(h).id,
                }
            },
    {
        if !self.is_initialized() {
            return Err(RuntimeError::NotInitialized);
        }
        let i = self.resolve_queue(h)?;
        let q = match self.take_queue(i) {
            Some(q) => q,
            None => {
                return Err(RuntimeError::InvalidQueue);
            },
        };
        let qid = q.id;
        let doorbell = q.doorbell;
        let slot = self.queues.remove(i);
        let QueueSlot { generation, live: _, queue: _, abi } = slot;
        self.queues.insert(i, QueueSlot { generation, live: false, queue: None, abi });
        let _ = self.signal_destroy_doorbell(doorbell);
        let _ = self.alloc_generation();
        let seq = self.trace.next_seq();
        self.trace.record(TraceEvent::QueueDestroy { seq, queue_id: qid });
        Ok(())
    }

    /// The write index of queue `h`.
    pub fn queue_load_write_index(&self, h: PackedHandle) -> (r: Result<u64, RuntimeError>)
        ensures
            self@.refcount == 0 ==> r == Err::<u64, RuntimeError>(RuntimeError::NotInitialized),
            self@.refcount > 0 && !self@.queue_handle_ok(h) ==> r == Err::<u64, RuntimeError>(RuntimeError::InvalidQueue),
            self@.refcount > 0 && self@.queue_handle_ok(h) ==> r == Ok::<u64, RuntimeError>(self@.queue_of(h).write_index),
    {
        if !self.is_initialized() {
            return Err(RuntimeError::NotInitialized);
        }
        let i = self.resolve_queue(h)?;
        match &self.queues[i].queue {
            Some(q) => Ok(q.write_index()),
            None => Err(RuntimeError::InvalidQueue),
        }
    }

    /// The read index of queue `h`.
    pub fn queue_load_read_index(&self, h: PackedHandle) -> (r: Result<u64, RuntimeError>)
        ensures
            self@.refcount == 0 ==> r == Err::<u64, RuntimeError>(RuntimeError::NotInitialized),
            self@.refcount > 0 && !self@.queue_handle_ok(h) ==> r == Err::<u64, RuntimeError>(RuntimeError::InvalidQueue),
            self@.refcount > 0 && self@.queue_handle_ok(h) ==> r == Ok::<u64, RuntimeError>(self@.queue_of(h).read_index),
    {
        if !self.is_initialized() {
            return Err(RuntimeError::NotInitialized);
        }
        let i = self.resolve_queue(h)?;
        match &self.queues[i].queue {
            Some(q) => Ok(q.read_index()),
            None => Err(RuntimeError::InvalidQueue),
        }
    }

    /// How many doorbell stores queue `h` has seen.
    pub fn queue_doorbell_count(&self, h: PackedHandle) -> (r: Result<u64, RuntimeError>)
        ensures
            self@.refcount == 0 ==> r == Err::<u64, RuntimeError>(RuntimeError::NotInitialized),
            self@.refcount > 0 && !self@.queue_handle_ok(h) ==> r == Err::<u64, RuntimeError>(RuntimeError::InvalidQueue),
            self@.refcount > 0 && self@.queue_handle_ok(h) ==> r == Ok::<u64, RuntimeError>(self@.queue_of(h).doorbell_stores),
    {
        if !self.is_initialized() {
            return Err(RuntimeError::NotInitialized);
        }
        let i = self.resolve_queue(h)?;
        match &self.queues[i].queue {
            Some(q) => Ok(q.doorbell_store_count()),
            None => Err(RuntimeError::InvalidQueue),
        }
    }

    /// Stores the write (`write == true`) or read index of queue `h`; traced.
    fn queue_store_index(&mut self, h: PackedHandle, value: u64, write: bool) -> (r: Result<(), RuntimeError>)
        requires
            old(self)@.wf(),
        ensures
            final(self)@.wf(),
            old(self)@.refcount == 0 ==> r == Err::<(), RuntimeError>(RuntimeError::NotInitialized)
                && final(self)@ == old(self)@,
            old(self)@.refcount > 0 && !old(self)@.queue_handle_ok(h) ==> r == Err::<(), RuntimeError>(RuntimeError::InvalidQueue)
                && final(self)@ == old(self)@,
            old(self)@.refcount > 0 && old(self)@.queue_handle_ok(h) ==> {
                let q = old(self)@.queue_of(h);
                let q2 = if write {
                    SoftGpuQueue { write_index: value, ..q }
                } else {
                    SoftGpuQueue { read_index: value, ..q }
                };
                &&& r is Ok
                &&& final(self)@ == (RuntimeView { trace: final(self)@.trace, ..with_queue(old(self)@, h_index(h), q2) })
                &&& logged_one(old(self)@.trace, final(self)@.trace)
                &&& (final(self)@.trace.events@.last() matches TraceEvent::QueueIndexStore { seq, queue_id, which, value: v }
                    && seq == bump_seq(old(self)@.trace.seq) && queue_id == q.id && v == value && which@ == (if write {
                    "write"@
                } else {
                    "read"@
                }))
            },
    {
        if !self.is_initialized() {
            return Err(RuntimeError::NotInitialized);
        }
        let i = self.resolve_queue(h)?;
        let mut q = match self.take_queue(i) {
            Some(q) => q,
            None => {
                return Err(RuntimeError::InvalidQueue);
            },
        };
        if write {
            q.store_write_index(value);
        } else {
            q.store_read_index(value);
        }
        let qid = q.id;
        self.put_queue(i, q);
        proof {
            assert(self@.queues =~= with_queue(old(self)@, i as int, q).queues);
            assert(self@ == with_queue(old(self)@, i as int, q));
            assert(self@.queues[i as int].queue is Some);
            assert forall|j: int| 0 <= j < self@.queues.len() && (#[trigger] self@.queues[j]).live implies self@.queues[j].queue is Some by {
                if j != i {
                    assert(self@.queues[j] == old(self)@.queues[j]);
                }
            }
        }
        let seq = self.trace.next_seq();
        self.trace.record(
            TraceEvent::QueueIndexStore { seq, queue_id: qid, which: owned(if write { "write" } else { "read" }), value },
        );
        Ok(())
    }

    /// Stores the write index of queue `h`; traced.
    pub fn queue_store_write_index(&mut self, h: PackedHandle, value: u64) -> (r: Result<(), RuntimeError>)
        requires
            old(self)@.wf(),
        ensures
            final(self)@.wf(),
            old(self)@.refcount == 0 ==> r == Err::<(), RuntimeError>(RuntimeError::NotInitialized)
                && final(self)@ == old(self)@,
            old(self)@.refcount > 0 && !old(self)@.queue_handle_ok(h) ==> r == Err::<(), RuntimeError>(RuntimeError::InvalidQueue)
                && final(self)@ == old(self)@,
            old(self)@.refcount > 0 && old(self)@.queue_handle_ok(h) ==> {
                &&& r is Ok
                &&& final(self)@ == (RuntimeView {
                    trace: final(self)@.trace,
                    ..with_queue(old(self)@, h_index(h), SoftGpuQueue { write_index: value, ..old(self)@.queue_of(h) })
                })
                &&& logged_one(old(self)@.trace, final(self)@.trace)
            },
    {
        self.queue_store_index(h, value, true)
    }

    /// Stores the read index of queue `h`; traced.
    pub fn queue_store_read_index(&mut self, h: PackedHandle, value: u64) -> (r: Result<(), RuntimeError>)
        requires
            old(self)@.wf(),
        ensures
            final(self)@.wf(),
            old(self)@.refcount == 0 ==> r == Err::<(), RuntimeError>(RuntimeError::NotInitialized)
                && final(self)@ == old(self)@,
            old(self)@.refcount > 0 && !old(self)@.queue_handle_ok(h) ==> r == Err::<(), RuntimeError>(RuntimeError::InvalidQueue)
                && final(self)@ == old(self)@,
            old(self)@.refcount > 0 && old(self)@.queue_handle_ok(h) ==> {
                &&& r is Ok
                &&& final(self)@ == (RuntimeView {
                    trace: final(self)@.trace,
                    ..with_queue(old(self)@, h_index(h), SoftGpuQueue { read_index: value, ..old(self)@.queue_of(h) })
                })
                &&& logged_one(old(self)@.trace, final(self)@.trace)
            },
    {
        self.queue_store_index(h, value, false)
    }
}

/// Slot `y` is slot `x` after packet processing: only a completion
/// signal's value may have changed.
pub open spec fn signal_slot_kept(x: SignalSlot, y: SignalSlot) -> bool {
    &&& y.generation == x.generation
    &&& y.live == x.live
    &&& (x.signal is None <==> y.signal is None)
    &&& x.signal matches Some(s) ==> {
        &&& y.signal->0.handle == s.handle
        &&& y.signal->0.cancelled == s.cancelled
        &&& y.signal->0.is_doorbell == s.is_doorbell
        &&& y.signal->0.queue_id == s.queue_id
        &&& s.is_doorbell ==> y.signal->0.value == s.value
        &&& y.signal->0.value == s.value || y.signal->0.value == 0
    }
}

/// Slot `y` is slot `x` after packet processing: only the read index and
/// the ring's bytes may have changed.
pub open spec fn queue_slot_kept(x: QueueSlot, y: QueueSlot) -> bool {
    &&& y.generation == x.generation
    &&& y.live == x.live
    &&& y.abi == x.abi
    &&& (x.queue is None <==> y.queue is None)
    &&& x.queue matches Some(p) ==> {
        let q = y.queue->0;
        &&& q.wf()
        &&& q.handle == p.handle
        &&& q.agent_handle == p.agent_handle
        &&& q.id == p.id
        &&& q.size == p.size
        &&& q.doorbell == p.doorbell
        &&& q.write_index == p.write_index
        &&& q.doorbell_stores == p.doorbell_stores
        &&& q.observed_through == p.observed_through
        &&& q.observed_ids@ == p.observed_ids@
    }
}

/// What processing packets may change: completion signal values, queue read
/// indexes and rings, allocation contents, captures (only appended) and the
/// trace. Everything else stays.
pub open spec fn packet_frame(a: RuntimeView, b: RuntimeView) -> bool {
    &&& b.refcount == a.refcount
    &&& b.profile == a.profile
    &&& b.agents == a.agents
    &&& b.regions == a.regions
    &&& b.pools == a.pools
    &&& b.next_generation == a.next_generation
    &&& b.next_queue_id == a.next_queue_id
    &&& b.kernels == a.kernels
    &&& b.next_kernel_object == a.next_kernel_object
    &&& b.readers == a.readers
    &&& b.next_reader_id == a.next_reader_id
    &&& b.executables == a.executables
    &&& b.next_executable_id == a.next_executable_id
    &&& b.symbols == a.symbols
    &&& b.next_symbol_id == a.next_symbol_id
    &&& b.signals.len() == a.signals.len()
    &&& forall|i: int| 0 <= i < a.signals.len() ==> signal_slot_kept(#[trigger] a.signals[i], b.signals[i])
    &&& b.queues.len() == a.queues.len()
    &&& forall|i: int| 0 <= i < a.queues.len() ==> queue_slot_kept(#[trigger] a.queues[i], b.queues[i])
    &&& b.captures.len() >= a.captures.len()
    &&& a.captures == b.captures.subrange(0, a.captures.len() as int)
}

proof fn lemma_packet_frame_refl(a: RuntimeView)
    requires
        a.wf_core(),
    ensures
        packet_frame(a, a),
{
    assert(a.captures == a.captures.subrange(0, a.captures.len() as int));
    assert forall|i: int| 0 <= i < a.queues.len() implies queue_slot_kept(#[trigger] a.queues[i], a.queues[i]) by {}
}

proof fn lemma_packet_frame_trans(a: RuntimeView, b: RuntimeView, c: RuntimeView)
    requires
        packet_frame(a, b),
        packet_frame(b, c),
    ensures
        packet_frame(a, c),
{
    assert forall|i: int| 0 <= i < a.signals.len() implies signal_slot_kept(#[trigger] a.signals[i], c.signals[i]) by {
        assert(signal_slot_kept(a.signals[i], b.signals[i]));
        assert(signal_slot_kept(b.signals[i], c.signals[i]));
    }
    assert forall|i: int| 0 <= i < a.queues.len() implies queue_slot_kept(#[trigger] a.queues[i], c.queues[i]) by {
        assert(queue_slot_kept(a.queues[i], b.queues[i]));
        assert(queue_slot_kept(b.queues[i], c.queues[i]));
    }
    assert(a.captures =~= c.captures.subrange(0, a.captures.len() as int)) by {
        assert(b.captures == c.captures.subrange(0, b.captures.len() as int));
    }
}

/// How a kernarg address classifies against allocator `a`.
pub open spec fn kernarg_class_ok(a: SoftGpuAllocator, addr: u64, k: KernargClass) -> bool {
    if addr == 0 {
        k == KernargClass::Null
    } else if exists|i: int| 0 <= i < a.metas().len() && a.metas()[i].ptr == addr {
        k matches KernargClass::SoftGpu { alloc_id: Some(id), addr: x } && x == addr && exists|i: int|
            0 <= i < a.metas().len() && a.metas()[i].ptr == addr && a.metas()[i].alloc_id == id
    } else {
        k == KernargClass::ForeignOpaque { addr }
    }
}

/// Classifies a kernarg address: null, a tracked allocation's base, or a
/// pointer the session does not own.
fn classify_kernarg(a: &SoftGpuAllocator, addr: u64) -> (k: KernargClass)
    ensures
        kernarg_class_ok(*a, addr, k),
{
    if addr == 0 {
        return KernargClass::Null;
    }
    match a.lookup(addr) {
        Some(m) => KernargClass::SoftGpu { alloc_id: Some(m.alloc_id), addr },
        None => KernargClass::ForeignOpaque { addr },
    }
}

/// The label of a kernarg class in traces.
pub open spec fn kernarg_label_spec(k: KernargClass) -> Seq<char> {
    match k {
        KernargClass::Null => "null"@,
        KernargClass::SoftGpu { alloc_id, .. } => "softgpu:"@ + dec_chars(
            match alloc_id {
                Some(id) => id as nat,
                None => 0,
            },
        ),
        KernargClass::ForeignOpaque { .. } => "foreign_opaque"@,
    }
}

fn kernarg_class_label(k: &KernargClass) -> (r: String)
    ensures
        r@ == kernarg_label_spec(*k),
{
    match k {
        KernargClass::Null => owned("null"),
        KernargClass::SoftGpu { alloc_id, .. } => {
            let id = match alloc_id {
                Some(id) => *id,
                None => 0,
            };
            cat_string(owned("softgpu:"), dec_u64(id))
        },
        KernargClass::ForeignOpaque { .. } => owned("foreign_opaque"),
    }
}

/// The text of an observation failure.
pub open spec fn validate_error_text(e: PacketValidateError) -> Seq<char> {
    match e {
        PacketValidateError::StillInvalid { packet_index } => "StillInvalid { packet_index: "@ + dec_chars(
            packet_index as nat,
        ) + " }"@,
        PacketValidateError::UnsupportedType { packet_index, packet_type } => "UnsupportedType { packet_index: "@
            + dec_chars(packet_index as nat) + ", packet_type: "@ + dec_chars(packet_type as nat) + " }"@,
        PacketValidateError::AlreadyObserved { packet_index } => "AlreadyObserved { packet_index: "@ + dec_chars(
            packet_index as nat,
        ) + " }"@,
    }
}

fn validate_error_detail(e: &PacketValidateError) -> (r: String)
    ensures
        r@ == validate_error_text(*e),
{
    match e {
        PacketValidateError::StillInvalid { packet_index } => cat(
            cat_string(owned("StillInvalid { packet_index: "), dec_u64(*packet_index)),
            " }",
        ),
        PacketValidateError::UnsupportedType { packet_index, packet_type } => {
            let a = cat_string(owned("UnsupportedType { packet_index: "), dec_u64(*packet_index));
            cat(cat_string(cat(a, ", packet_type: "), dec_u64(*packet_type as u64)), " }")
        },
        PacketValidateError::AlreadyObserved { packet_index } => cat(
            cat_string(owned("AlreadyObserved { packet_index: "), dec_u64(*packet_index)),
            " }",
        ),
    }
}

/// The text of a packet parse failure.
pub open spec fn parse_error_text(e: AqlParseError) -> Seq<char> {
    match e {
        AqlParseError::WrongLength { got } => "WrongLength { got: "@ + dec_chars(got as nat) + " }"@,
        AqlParseError::StillInvalid => "StillInvalid"@,
        AqlParseError::UnsupportedType { packet_type } => "UnsupportedType { packet_type: "@ + dec_chars(
            packet_type as nat,
        ) + " }"@,
        AqlParseError::ZeroWorkgroup { dim } => "ZeroWorkgroup { dim: "@ + dec_chars(dim as nat) + " }"@,
        AqlParseError::GridSmallerThanWorkgroup { dim } => "GridSmallerThanWorkgroup { dim: "@ + dec_chars(dim as nat)
            + " }"@,
        AqlParseError::BadDimensions { dimensions } => "BadDimensions { dimensions: "@ + dec_chars(dimensions as nat)
            + " }"@,
        AqlParseError::DimConstraint { detail } => "DimConstraint { detail: \""@ + detail@ + "\" }"@,
    }
}

fn parse_error_detail(e: &AqlParseError) -> (r: String)
    ensures
        r@ == parse_error_text(*e),
{
    match e {
        AqlParseError::WrongLength { got } => cat(
            cat_string(owned("WrongLength { got: "), dec_u64(*got as u64)),
            " }",
        ),
        AqlParseError::StillInvalid => owned("StillInvalid"),
        AqlParseError::UnsupportedType { packet_type } => cat(
            cat_string(owned("UnsupportedType { packet_type: "), dec_u64(*packet_type as u64)),
            " }",
        ),
        AqlParseError::ZeroWorkgroup { dim } => cat(cat_string(owned("ZeroWorkgroup { dim: "), dec_u64(*dim as u64)), " }"),
        AqlParseError::GridSmallerThanWorkgroup { dim } => cat(
            cat_string(owned("GridSmallerThanWorkgroup { dim: "), dec_u64(*dim as u64)),
            " }",
        ),
        AqlParseError::BadDimensions { dimensions } => cat(
            cat_string(owned("BadDimensions { dimensions: "), dec_u64(*dimensions as u64)),
            " }",
        ),
        AqlParseError::DimConstraint { detail } => cat(
            cat(owned("DimConstraint { detail: \""), detail.as_str()),
            "\" }",
        ),
    }
}

/// The read index after the packet processor passes packet `index`: one
/// past it (saturating), never moving backwards.
pub open spec fn advanced_read(read: u64, index: u64) -> u64 {
    let next = if index == u64::MAX { u64::MAX } else { (index + 1) as u64 };
    if next > read {
        next
    } else {
        read
    }
}

/// Signal `h` can take a completion store: it resolves, is not cancelled,
/// and is not a doorbell.
pub open spec fn completable(v: RuntimeView, h: PackedHandle) -> bool {
    &&& v.signal_handle_ok(h)
    &&& !v.signal_of(h).cancelled
    &&& !v.signal_of(h).is_doorbell
}

/// How a processed packet ended.
#[derive(Debug, Clone, Copy, PartialEq, Eq, Structural)]
enum PacketOutcome {
    KernelSuccess,
    DiagnosticComplete,
    Rejected,
}

impl Runtime {
    /// Index of the first queue with id `qid`.
    fn find_queue_by_id(&self, qid: u64) -> (r: Option<usize>)
        ensures
            r matches Some(i) ==> queue_pos(self@.queues, qid, i as int),
            r is None ==> forall|j: int|
                0 <= j < self@.queues.len() ==> !((#[trigger] self@.queues[j]).queue matches Some(q) && q.id == qid),
    {
        let mut i: usize = 0;
        while i < self.queues.len()
            invariant
                i <= self.queues@.len(),
                forall|j: int| 0 <= j < i ==> !((#[trigger] self.queues@[j]).queue matches Some(q) && q.id == qid),
            decreases self.queues@.len() - i,
        {
            match &self.queues[i].queue {
                Some(q) => {
                    if q.id == qid {
                        return Some(i);
                    }
                },
                None => {},
            }
            i = i + 1;
        }
        None
    }

    /// Passes packet `index` of queue `qid`: its header goes back to
    /// `INVALID` and the read index moves one past it (never backwards).
    fn advance_packet_processor(&mut self, qid: u64, index: u64)
        requires
            old(self)@.wf(),
        ensures
            final(self)@.wf(),
            packet_frame(old(self)@, final(self)@),
            final(self)@.signals == old(self)@.signals,
            final(self)@.captures == old(self)@.captures,
            final(self)@.allocator == old(self)@.allocator,
            final(self)@.trace == old(self)@.trace,
            forall|i: int|
                queue_pos(old(self)@.queues, qid, i) ==> (#[trigger] final(self)@.queues[i]).queue->0.read_index == advanced_read(
                    old(self)@.queues[i].queue->0.read_index,
                    index,
                ),
            forall|j: int|
                0 <= j < old(self)@.queues.len() && !queue_pos(old(self)@.queues, qid, j) ==> #[trigger] final(self)@.queues[j]
                    == old(self)@.queues[j],
    {
        match self.find_queue_by_id(qid) {
            None => {
                proof { lemma_packet_frame_refl(self@); }
            },
            Some(i) => {
                let mut q = match self.take_queue(i) {
                    Some(q) => q,
                    None => {
                        return;
                    },
                };
                q.write_packet_type(index, PACKET_TYPE_INVALID);
                let next = if index == u64::MAX { u64::MAX } else { index + 1 };
                if next > q.read_index() {
                    q.store_read_index(next);
                }
                self.put_queue(i, q);
                proof {
                    assert forall|j: int| 0 <= j < self@.queues.len() && (#[trigger] self@.queues[j]).live implies self@.queues[j].queue is Some by {
                        if j != i {
                            assert(self@.queues[j] == old(self)@.queues[j]);
                        }
                    }
                    assert forall|j: int| 0 <= j < self@.queues.len() implies ((#[trigger] self@.queues[j]).queue matches Some(q) ==> q.wf()) by {
                        if j != i {
                            assert(self@.queues[j] == old(self)@.queues[j]);
                        }
                    }
                    assert forall|j: int| 0 <= j < old(self)@.queues.len() implies queue_slot_kept(#[trigger] old(self)@.queues[j], self@.queues[j]) by {
                        if j != i {
                            assert(self@.queues[j] == old(self)@.queues[j]);
                        }
                    }
                    assert(old(self)@.captures == self@.captures.subrange(0, old(self)@.captures.len() as int));
                    assert forall|j: int|
                        0 <= j < old(self)@.queues.len() && !queue_pos(old(self)@.queues, qid, j) implies #[trigger] self@.queues[j]
                            == old(self)@.queues[j] by {
                        if j == i {
                            assert(queue_pos(old(self)@.queues, qid, j));
                        }
                    }
                    assert forall|k: int| queue_pos(old(self)@.queues, qid, k) implies k == i by {
                        if k < i {
                            assert(!((old(self)@.queues[k]).queue matches Some(q) && q.id == qid));
                        } else if k > i {
                            assert(!((old(self)@.queues[i as int]).queue matches Some(q) && q.id == qid));
                        }
                    }
                }
            },
        }
    }

    /// Completes packet `index` of queue `qid`: stores 0 into its completion
    /// signal (when it has one), passes it, and traces the completion.
    fn complete_packet(&mut self, qid: u64, index: u64, completion: u64, contract: &str, note: String)
        requires
            old(self)@.wf(),
        ensures
            final(self)@.wf(),
            packet_frame(old(self)@, final(self)@),
            final(self)@.captures == old(self)@.captures,
            final(self)@.allocator == old(self)@.allocator,
            completion != 0 && completable(old(self)@, PackedHandle(completion)) ==> final(self)@.signal_handle_ok(
                PackedHandle(completion),
            ) && final(self)@.signal_of(PackedHandle(completion)).value == 0,
            forall|i: int|
                queue_pos(old(self)@.queues, qid, i) ==> (#[trigger] final(self)@.queues[i]).queue->0.read_index == advanced_read(
                    old(self)@.queues[i].queue->0.read_index,
                    index,
                ),
            logged_one(old(self)@.trace, final(self)@.trace),
            (final(self)@.trace.events@.last() matches TraceEvent::DiagnosticComplete {
                seq,
                queue_id,
                packet_index,
                completion_signal,
                contract: c,
                note: n,
            } && seq == bump_seq(old(self)@.trace.seq) && queue_id == qid && packet_index == index && completion_signal
                == completion && c@ == contract@ && n@ == note@),
    {
        let ghost v0 = self@;
        if completion != 0 {
            let _ = self.signal_store_plain(PackedHandle::from_raw(completion), 0);
        }
        let ghost v1 = self@;
        proof {
            assert forall|i: int| 0 <= i < v0.signals.len() implies signal_slot_kept(#[trigger] v0.signals[i], v1.signals[i]) by {}
            assert forall|i: int| 0 <= i < v0.queues.len() implies queue_slot_kept(#[trigger] v0.queues[i], v1.queues[i]) by {}
            assert(v0.captures == v1.captures.subrange(0, v0.captures.len() as int));
        }
        self.advance_packet_processor(qid, index);
        proof { lemma_packet_frame_trans(v0, v1, self@); }
        let ghost v2 = self@;
        let seq = self.trace.next_seq();
        self.trace.record(
            TraceEvent::DiagnosticComplete {
                seq,
                queue_id: qid,
                packet_index: index,
                completion_signal: completion,
                contract: owned(contract),
                note,
            },
        );
        proof {
            assert(packet_frame(v2, self@)) by {
                assert forall|i: int| 0 <= i < v2.signals.len() implies signal_slot_kept(#[trigger] v2.signals[i], self@.signals[i]) by {}
                assert forall|i: int| 0 <= i < v2.queues.len() implies queue_slot_kept(#[trigger] v2.queues[i], self@.queues[i]) by {}
                assert(v2.captures == self@.captures.subrange(0, v2.captures.len() as int));
            }
            lemma_packet_frame_trans(v0, v2, self@);
        }
    }

    /// Runs `code` over `grid_x` work-items with the allocator as global
    /// memory and the kernarg pointer `addr`.
    fn run_kernel(&mut self, code: &[u8], addr: u64, grid_x: u32) -> (r: Result<u64, IsaError>)
        requires
            old(self)@.wf(),
            old(self)@.refcount > 0,
        ensures
            final(self)@.wf(),
            final(self)@ == (RuntimeView { allocator: final(self)@.allocator, ..old(self)@ }),
            code@.len() == 0 ==> (r matches Err(e) && e.kind == IsaErrorKind::Config) && final(self)@ == old(self)@,
            code@.len() > 0 && grid_x == 0 ==> r == Ok::<u64, IsaError>(0),
            r matches Ok(n) ==> (grid_x > 0 ==> n > 0),
            r is Ok ==> exists|m0: AllocatorMemory, m1: AllocatorMemory|
                m0.inner() == old(self)@.allocator && m1.inner() == final(self)@.allocator && #[trigger] launch_rel(
                    code@,
                    WaveSize::Wave32,
                    addr,
                    grid_x as int,
                    m0,
                    m1,
                ),
    {
        let cap = self.allocator.capacity();
        let mut taken = SoftGpuAllocator::new(cap);
        std::mem::swap(&mut taken, &mut self.allocator);
        let mut mem = AllocatorMemory::new(taken);
        let ghost m0 = mem;
        let r = run_code_1d(code, &mut mem, addr, grid_x, WaveSize::Wave32);
        let ghost m1 = mem;
        self.allocator = mem.into_inner();
        proof {
            if r is Ok {
                assert(launch_rel(code@, WaveSize::Wave32, addr, grid_x as int, m0, m1));
            }
        }
        r
    }
}

/// Queue `q` is queue `p` after an observation: either every pending
/// packet was observed and the cursor moved to the write index, or it
/// stopped at a packet and the cursor stayed.
pub open spec fn observe_outcome(p: SoftGpuQueue, q: SoftGpuQueue) -> bool {
    let lo = p.observed_through;
    let hi = p.write_index;
    ||| {
        &&& forall|k: u64| lo <= k < hi ==> packet_ok(p.packets@, p.size, p.observed_ids@, k)
        &&& q.observed_ids@ == p.observed_ids@.union(index_range(lo, hi))
        &&& q.observed_through == (if hi > lo { hi } else { lo })
    }
    ||| exists|k: u64, e: PacketValidateError|
        #[trigger] stopped_at(p.packets@, p.size, p.observed_ids@, lo, hi, k, e, q.observed_ids@) && q.observed_through == lo
}

impl Runtime {
    /// Runs a validated dispatch when a registered kernel and a session
    /// kernarg allow it; otherwise completes it as a diagnostic. A kernel
    /// that traps is rejected (its completion signal is left alone).
    fn try_dispatch_or_diagnose(&mut self, qid: u64, desc: &DispatchDescriptor) -> (r: PacketOutcome)
        requires
            old(self)@.wf(),
            old(self)@.refcount > 0,
        ensures
            final(self)@.wf(),
            packet_frame(old(self)@, final(self)@),
            final(self)@.captures == old(self)@.captures,
            r != PacketOutcome::Rejected && desc.completion_signal != 0 && completable(old(self)@, PackedHandle(desc.completion_signal))
                ==> final(self)@.signal_handle_ok(PackedHandle(desc.completion_signal)) && final(self)@.signal_of(
                PackedHandle(desc.completion_signal),
            ).value == 0,
            forall|i: int|
                queue_pos(old(self)@.queues, qid, i) ==> (#[trigger] final(self)@.queues[i]).queue->0.read_index == advanced_read(
                    old(self)@.queues[i].queue->0.read_index,
                    desc.packet_index,
                ),
            r == PacketOutcome::KernelSuccess ==> desc.packet_type == PacketType::KernelDispatch && lookup(
                old(self)@.kernels,
                desc.kernel_object,
            ) is Some && desc.kernarg is SoftGpu && desc.grid_size[0] > 0,
            !(desc.packet_type == PacketType::KernelDispatch && lookup(old(self)@.kernels, desc.kernel_object) is Some
                && desc.kernarg is SoftGpu && desc.grid_size[0] > 0) ==> r == PacketOutcome::DiagnosticComplete,
    {
        if desc.packet_type != PacketType::KernelDispatch {
            self.complete_packet(
                qid,
                desc.packet_index,
                desc.completion_signal,
                DIAGNOSTIC_COMPLETE_NO_EXECUTION,
                owned("not_kernel_success"),
            );
            return PacketOutcome::DiagnosticComplete;
        }
        let ki = match find_key(&self.isa_kernels, desc.kernel_object) {
            Some(i) => i,
            None => {
                self.complete_packet(
                    qid,
                    desc.packet_index,
                    desc.completion_signal,
                    DIAGNOSTIC_COMPLETE_NO_EXECUTION,
                    owned("not_kernel_success"),
                );
                return PacketOutcome::DiagnosticComplete;
            },
        };
        proof { lemma_lookup_at(self@.kernels, ki as int); }
        let addr = match desc.kernarg {
            KernargClass::SoftGpu { addr, .. } => addr,
            _ => {
                self.complete_packet(
                    qid,
                    desc.packet_index,
                    desc.completion_signal,
                    DIAGNOSTIC_COMPLETE_NO_EXECUTION,
                    owned("not_kernel_success"),
                );
                return PacketOutcome::DiagnosticComplete;
            },
        };
        let grid_x = desc.grid_size[0];
        if grid_x == 0 {
            self.complete_packet(
                qid,
                desc.packet_index,
                desc.completion_signal,
                DIAGNOSTIC_COMPLETE_NO_EXECUTION,
                owned("not_kernel_success"),
            );
            return PacketOutcome::DiagnosticComplete;
        }
        let code = self.isa_kernels[ki].1.code.clone();
        let name = self.isa_kernels[ki].1.name.clone();
        let ghost v0 = self@;
        let ran = self.run_kernel(code.as_slice(), addr, grid_x);
        let ghost v1 = self@;
        proof {
            assert forall|i: int| 0 <= i < v0.signals.len() implies signal_slot_kept(#[trigger] v0.signals[i], v1.signals[i]) by {}
            assert forall|i: int| 0 <= i < v0.queues.len() implies queue_slot_kept(#[trigger] v0.queues[i], v1.queues[i]) by {}
            assert(v0.captures == v1.captures.subrange(0, v0.captures.len() as int));
        }
        match ran {
            Ok(_) => {
                self.complete_packet(
                    qid,
                    desc.packet_index,
                    desc.completion_signal,
                    KERNEL_SUCCESS,
                    cat(owned("softgpu_isa_kernel:"), name.as_str()),
                );
                proof { lemma_packet_frame_trans(v0, v1, self@); }
                PacketOutcome::KernelSuccess
            },
            Err(e) => {
                let seq = self.trace.next_seq();
                self.trace.record(
                    TraceEvent::DispatchRejected {
                        seq,
                        queue_id: qid,
                        packet_index: desc.packet_index,
                        packet_type: desc.packet_type.as_u16(),
                        detail: e.format_diagnostic(),
                        contract: owned(DIAGNOSTIC_REJECTED),
                    },
                );
                let ghost v2 = self@;
                proof {
                    assert forall|i: int| 0 <= i < v1.signals.len() implies signal_slot_kept(#[trigger] v1.signals[i], v2.signals[i]) by {}
                    assert forall|i: int| 0 <= i < v1.queues.len() implies queue_slot_kept(#[trigger] v1.queues[i], v2.queues[i]) by {}
                    assert(v1.captures == v2.captures.subrange(0, v1.captures.len() as int));
                    lemma_packet_frame_trans(v0, v1, v2);
                }
                self.advance_packet_processor(qid, desc.packet_index);
                proof { lemma_packet_frame_trans(v0, v2, self@); }
                PacketOutcome::Rejected
            },
        }
    }

    /// Handles one observed packet: parses it (classifying its kernarg
    /// pointer), then dispatches or diagnoses a valid one and captures it,
    /// or rejects an invalid one; every step is traced.
    fn process_observed_packet(&mut self, qid: u64, index: u64, ptype: u16, bytes: &[u8]) -> (r: PacketOutcome)
        requires
            old(self)@.wf(),
            old(self)@.refcount > 0,
        ensures
            final(self)@.wf(),
            packet_frame(old(self)@, final(self)@),
            supported_fault(bytes@) is None ==> final(self)@.captures.len() == old(self)@.captures.len() + 1,
            supported_fault(bytes@) is Some ==> final(self)@.captures == old(self)@.captures && r == PacketOutcome::Rejected,
            forall|i: int|
                queue_pos(old(self)@.queues, qid, i) ==> (#[trigger] final(self)@.queues[i]).queue->0.read_index == advanced_read(
                    old(self)@.queues[i].queue->0.read_index,
                    index,
                ),
    {
        let ghost v0 = self@;
        let seq = self.trace.next_seq();
        self.trace.record(TraceEvent::PacketObserved { seq, queue_id: qid, packet_index: index, packet_type: ptype });
        let ghost v1 = self@;
        proof {
            assert forall|i: int| 0 <= i < v0.signals.len() implies signal_slot_kept(#[trigger] v0.signals[i], v1.signals[i]) by {}
            assert forall|i: int| 0 <= i < v0.queues.len() implies queue_slot_kept(#[trigger] v0.queues[i], v1.queues[i]) by {}
            assert(v0.captures == v1.captures.subrange(0, v0.captures.len() as int));
        }
        let alloc = &self.allocator;
        let classify = |a: u64| -> (k: KernargClass)
            ensures
                kernarg_class_ok(*alloc, a, k),
        {
            classify_kernarg(alloc, a)
        };
        let parsed = parse_supported_packet(bytes, index, classify);
        match parsed {
            Ok(desc) => {
                let seq = self.trace.next_seq();
                self.trace.record(
                    TraceEvent::DispatchValidated {
                        seq,
                        queue_id: qid,
                        packet_index: desc.packet_index,
                        packet_type: desc.packet_type.as_u16(),
                        dimensions: desc.dimensions,
                        workgroup_size: desc.workgroup_size,
                        grid_size: desc.grid_size,
                        private_segment_size: desc.private_segment_size,
                        group_segment_size: desc.group_segment_size,
                        kernel_object: desc.kernel_object,
                        kernarg_class: kernarg_class_label(&desc.kernarg),
                        completion_signal: desc.completion_signal,
                    },
                );
                let ghost v2 = self@;
                proof {
                    assert forall|i: int| 0 <= i < v1.signals.len() implies signal_slot_kept(#[trigger] v1.signals[i], v2.signals[i]) by {}
                    assert forall|i: int| 0 <= i < v1.queues.len() implies queue_slot_kept(#[trigger] v1.queues[i], v2.queues[i]) by {}
                    assert(v1.captures == v2.captures.subrange(0, v1.captures.len() as int));
                    lemma_packet_frame_trans(v0, v1, v2);
                }
                let out = self.try_dispatch_or_diagnose(qid, &desc);
                proof { lemma_packet_frame_trans(v0, v2, self@); }
                let ghost v3 = self@;
                self.dispatch_captures.push(desc);
                proof {
                    assert forall|i: int| 0 <= i < v3.signals.len() implies signal_slot_kept(#[trigger] v3.signals[i], self@.signals[i]) by {}
                    assert forall|i: int| 0 <= i < v3.queues.len() implies queue_slot_kept(#[trigger] v3.queues[i], self@.queues[i]) by {}
                    assert(v3.captures =~= self@.captures.subrange(0, v3.captures.len() as int));
                    lemma_packet_frame_trans(v0, v3, self@);
                }
                out
            },
            Err(err) => {
                let seq = self.trace.next_seq();
                self.trace.record(
                    TraceEvent::DispatchRejected {
                        seq,
                        queue_id: qid,
                        packet_index: index,
                        packet_type: ptype,
                        detail: parse_error_detail(&err),
                        contract: owned(DIAGNOSTIC_REJECTED),
                    },
                );
                let ghost v2 = self@;
                proof {
                    assert forall|i: int| 0 <= i < v1.signals.len() implies signal_slot_kept(#[trigger] v1.signals[i], v2.signals[i]) by {}
                    assert forall|i: int| 0 <= i < v1.queues.len() implies queue_slot_kept(#[trigger] v1.queues[i], v2.queues[i]) by {}
                    assert(v1.captures == v2.captures.subrange(0, v1.captures.len() as int));
                    lemma_packet_frame_trans(v0, v1, v2);
                }
                self.advance_packet_processor(qid, index);
                proof { lemma_packet_frame_trans(v0, v2, self@); }
                PacketOutcome::Rejected
            },
        }
    }
}

impl Runtime {
    /// Stores `value` into signal `h`. A store to a queue's doorbell also
    /// rings it: the queue counts the store, observes its new packets once
    /// each (a failure is traced), and processes each observed packet in
    /// order.
    pub fn signal_store(&mut self, h: PackedHandle, value: i64) -> (r: Result<(), RuntimeError>)
        requires
            old(self)@.wf(),
        ensures
            final(self)@.wf(),
            old(self)@.refcount == 0 ==> r == Err::<(), RuntimeError>(RuntimeError::NotInitialized)
                && final(self)@ == old(self)@,
            old(self)@.refcount > 0 && !(old(self)@.signal_handle_ok(h) && !old(self)@.signal_of(h).cancelled) ==> r == Err::<
                (),
                RuntimeError,
            >(RuntimeError::InvalidSignal) && final(self)@ == old(self)@,
            old(self)@.refcount > 0 && old(self)@.signal_handle_ok(h) && !old(self)@.signal_of(h).cancelled ==> {
                let sg = old(self)@.signal_of(h);
                let stored = RuntimeView {
                    signals: old(self)@.signals.update(
                        h_index(h),
                        SignalSlot { signal: Some(SoftGpuSignal { value, ..sg }), ..old(self)@.signals[h_index(h)] },
                    ),
                    ..old(self)@
                };
                &&& r is Ok
                &&& final(self)@.signal_handle_ok(h)
                &&& final(self)@.signal_of(h).value == value
                &&& !(sg.is_doorbell && sg.queue_id is Some) ==> final(self)@ == stored
                &&& (sg.is_doorbell && sg.queue_id is Some) ==> {
                    &&& final(self)@.refcount == old(self)@.refcount
                    &&& final(self)@.profile == old(self)@.profile
                    &&& final(self)@.agents == old(self)@.agents
                    &&& final(self)@.regions == old(self)@.regions
                    &&& final(self)@.pools == old(self)@.pools
                    &&& final(self)@.kernels == old(self)@.kernels
                    &&& final(self)@.executables == old(self)@.executables
                    &&& final(self)@.next_generation == old(self)@.next_generation
                    &&& final(self)@.signals.len() == old(self)@.signals.len()
                    &&& final(self)@.queues.len() == old(self)@.queues.len()
                    &&& old(self)@.captures == final(self)@.captures.subrange(0, old(self)@.captures.len() as int)
                    &&& forall|i: int|
                        0 <= i < old(self)@.signals.len() && i != h_index(h) ==> signal_slot_kept(
                            #[trigger] old(self)@.signals[i],
                            final(self)@.signals[i],
                        )
                    &&& forall|i: int|
                        queue_pos(old(self)@.queues, sg.queue_id->0, i) ==> {
                            let p = old(self)@.queues[i].queue->0;
                            let q = (#[trigger] final(self)@.queues[i]).queue->0;
                            &&& final(self)@.queues[i].queue is Some
                            &&& q.doorbell_stores == (if p.doorbell_stores == u64::MAX {
                                0
                            } else {
                                (p.doorbell_stores + 1) as u64
                            })
                            &&& q.write_index == p.write_index
                            &&& observe_outcome(p, q)
                        }
                    &&& (forall|i: int| 0 <= i < old(self)@.queues.len() ==> !queue_pos(old(self)@.queues, sg.queue_id->0, i))
                        ==> final(self)@ == stored
                }
            },
    {
        if !self.is_initialized() {
            return Err(RuntimeError::NotInitialized);
        }
        let mut sg = self.resolve_signal(h)?;
        if sg.is_cancelled() {
            return Err(RuntimeError::InvalidSignal);
        }
        sg.store(value);
        let idx = h.index() as usize;
        let g = self.signals[idx].generation;
        let live = self.signals[idx].live;
        self.signals.set(idx, SignalSlot { generation: g, live, signal: Some(sg) });
        if !sg.is_doorbell {
            return Ok(());
        }
        let qid = match sg.queue_id {
            Some(q) => q,
            None => {
                return Ok(());
            },
        };
        let i = match self.find_queue_by_id(qid) {
            Some(i) => i,
            None => {
                return Ok(());
            },
        };
        let mut q = match self.take_queue(i) {
            Some(q) => q,
            None => {
                return Ok(());
            },
        };
        let ghost p = q;
        q.note_doorbell_store();
        let seq = self.trace.next_seq();
        self.trace.record(TraceEvent::QueueDoorbell { seq, queue_id: qid, value });
        let observed = q.observe_packets();
        let mut pending: Vec<(PacketObservation, Vec<u8>)> = Vec::new();
        let mut failure: Option<String> = None;
        match observed {
            Ok(obs) => {
                let mut k: usize = 0;
                while k < obs.len()
                    invariant
                        k <= obs@.len(),
                    decreases obs@.len() - k,
                {
                    let o = obs[k].clone();
                    let b = q.packet_bytes(o.packet_index);
                    pending.push((o, b));
                    k = k + 1;
                }
            },
            Err(e) => {
                failure = Some(validate_error_detail(&e));
            },
        }
        self.put_queue(i, q);
        let ghost v0 = self@;
        proof {
            assert forall|j: int| 0 <= j < self@.queues.len() && (#[trigger] self@.queues[j]).live implies self@.queues[j].queue is Some by {
                if j != i {
                    assert(self@.queues[j] == old(self)@.queues[j]);
                }
            }
            assert forall|j: int| 0 <= j < self@.queues.len() implies ((#[trigger] self@.queues[j]).queue matches Some(q) ==> q.wf()) by {
                if j != i {
                    assert(self@.queues[j] == old(self)@.queues[j]);
                }
            }
            assert(observe_outcome(p, self@.queues[i as int].queue->0));
        }
        match failure {
            Some(detail) => {
                let seq = self.trace.next_seq();
                self.trace.record(TraceEvent::PacketValidateFailed { seq, queue_id: qid, detail });
            },
            None => {},
        }
        let ghost v1 = self@;
        proof {
            assert forall|j: int| 0 <= j < v0.signals.len() implies signal_slot_kept(#[trigger] v0.signals[j], v1.signals[j]) by {}
            assert forall|j: int| 0 <= j < v0.queues.len() implies queue_slot_kept(#[trigger] v0.queues[j], v1.queues[j]) by {}
            assert(v0.captures == v1.captures.subrange(0, v0.captures.len() as int));
        }
        let mut n: usize = 0;
        while n < pending.len()
            invariant
                self@.wf(),
                self@.refcount > 0,
                packet_frame(v0, self@),
                n <= pending@.len(),
            decreases pending@.len() - n,
        {
            let ghost before = self@;
            let _ = self.process_observed_packet(
                qid,
                pending[n].0.packet_index,
                pending[n].0.packet_type,
                pending[n].1.as_slice(),
            );
            proof { lemma_packet_frame_trans(v0, before, self@); }
            n = n + 1;
        }
        proof {
            assert forall|j: int| 0 <= j < old(self)@.signals.len() && j != h_index(h) implies signal_slot_kept(
                #[trigger] old(self)@.signals[j],
                self@.signals[j],
            ) by {
                assert(v0.signals[j] == old(self)@.signals[j]);
                assert(signal_slot_kept(v0.signals[j], self@.signals[j]));
            }
            assert(v0.captures == old(self)@.captures);
            let qf = self@.queues[i as int];
            assert(queue_slot_kept(v0.queues[i as int], qf));
            assert(signal_slot_kept(v0.signals[idx as int], self@.signals[idx as int]));
            assert forall|k: int| queue_pos(old(self)@.queues, qid, k) implies k == i by {
                if k < i {
                    assert(!((old(self)@.queues[k]).queue matches Some(q) && q.id == qid));
                } else if k > i {
                    assert(!((old(self)@.queues[i as int]).queue matches Some(q) && q.id == qid));
                }
            }
        }
        Ok(())
    }

    /// Observes queue `h`'s new packets without a doorbell store.
    pub fn queue_observe(&mut self, h: PackedHandle) -> (r: Result<Vec<PacketObservation>, RuntimeError>)
        requires
            old(self)@.wf(),
        ensures
            final(self)@.wf(),
            old(self)@.refcount == 0 ==> r is Err && r->Err_0 == RuntimeError::NotInitialized && final(self)@ == old(self)@,
            old(self)@.refcount > 0 && !old(self)@.queue_handle_ok(h) ==> r is Err && r->Err_0 == RuntimeError::InvalidQueue
                && final(self)@ == old(self)@,
            old(self)@.refcount > 0 && old(self)@.queue_handle_ok(h) ==> {
                let p = old(self)@.queue_of(h);
                let q = final(self)@.queue_of(h);
                let lo = p.observed_through;
                &&& final(self)@ == with_queue(old(self)@, h_index(h), q)
                &&& final(self)@.queue_handle_ok(h)
                &&& q.packets@ == p.packets@
                &&& q.write_index == p.write_index
                &&& q.read_index == p.read_index
                &&& q.doorbell_stores == p.doorbell_stores
                &&& observe_outcome(p, q)
                &&& r is Err ==> r->Err_0 is Internal
                &&& r matches Ok(obs) ==> obs@.len() == (if p.write_index > lo { p.write_index - lo } else { 0 })
                    && forall|i: int| 0 <= i < obs@.len() ==> #[trigger] obs@[i] == (PacketObservation {
                        packet_index: (lo + i) as u64,
                        packet_type: packet_type_spec(p.packets@, p.size, (lo + i) as u64),
                    })
            },
    {
        if !self.is_initialized() {
            return Err(RuntimeError::NotInitialized);
        }
        let i = self.resolve_queue(h)?;
        let mut q = match self.take_queue(i) {
            Some(q) => q,
            None => {
                return Err(RuntimeError::InvalidQueue);
            },
        };
        let ghost p0 = q;
        let observed = q.observe_packets();
        let ghost q1 = q;
        self.put_queue(i, q);
        proof {
            assert(self@.queues[i as int].queue == Some(q1));
            assert(self@.queues =~= with_queue(old(self)@, i as int, q1).queues);
            assert(self@.queue_of(h) == q1);
            assert(old(self)@.queue_of(h) == p0);
            assert(observe_outcome(p0, q1));
            assert(self@.queue_handle_ok(h));
            assert forall|j: int| 0 <= j < self@.queues.len() && (#[trigger] self@.queues[j]).live implies self@.queues[j].queue is Some by {
                if j != i {
                    assert(self@.queues[j] == old(self)@.queues[j]);
                }
            }
            assert forall|j: int| 0 <= j < self@.queues.len() implies ((#[trigger] self@.queues[j]).queue matches Some(q) ==> q.wf()) by {
                if j != i {
                    assert(self@.queues[j] == old(self)@.queues[j]);
                }
            }
        }
        match observed {
            Ok(obs) => Ok(obs),
            Err(e) => Err(RuntimeError::Internal(validate_error_detail(&e))),
        }
    }

    /// Writes a 64-byte packet into queue `h`'s ring at `packet_index` (the
    /// producer's side of the ring); false when the packet is not 64 bytes.
    pub fn queue_write_packet(&mut self, h: PackedHandle, packet_index: u64, bytes: &[u8]) -> (r: Result<bool, RuntimeError>)
        requires
            old(self)@.wf(),
        ensures
            final(self)@.wf(),
            old(self)@.refcount == 0 ==> r == Err::<bool, RuntimeError>(RuntimeError::NotInitialized) && final(self)@ == old(self)@,
            old(self)@.refcount > 0 && !old(self)@.queue_handle_ok(h) ==> r == Err::<bool, RuntimeError>(RuntimeError::InvalidQueue)
                && final(self)@ == old(self)@,
            old(self)@.refcount > 0 && old(self)@.queue_handle_ok(h) ==> {
                let p = old(self)@.queue_of(h);
                let q = final(self)@.queue_of(h);
                &&& r is Ok
                &&& final(self)@ == with_queue(old(self)@, h_index(h), q)
                &&& final(self)@.queue_handle_ok(h)
                &&& q.size == p.size && q.id == p.id && q.handle == p.handle && q.doorbell == p.doorbell
                &&& q.write_index == p.write_index && q.read_index == p.read_index
                &&& q.doorbell_stores == p.doorbell_stores
                &&& q.observed_through == p.observed_through && q.observed_ids@ == p.observed_ids@
                &&& r == Ok::<bool, RuntimeError>(false) ==> q.packets@ == p.packets@
                &&& r == Ok::<bool, RuntimeError>(true) ==> bytes@.len() == 64 && ({
                    let o = (packet_index % (p.size as u64)) * 64;
                    q.packets@ == p.packets@.subrange(0, o as int) + bytes@ + p.packets@.subrange(o + 64, p.packets@.len() as int)
                })
            },
    {
        if !self.is_initialized() {
            return Err(RuntimeError::NotInitialized);
        }
        let i = self.resolve_queue(h)?;
        let mut q = match self.take_queue(i) {
            Some(q) => q,
            None => {
                return Err(RuntimeError::InvalidQueue);
            },
        };
        let ghost p0 = q;
        let ok = q.write_packet(packet_index, bytes);
        let ghost q1 = q;
        self.put_queue(i, q);
        proof {
            assert(self@.queues[i as int].queue == Some(q1));
            assert(self@.queues =~= with_queue(old(self)@, i as int, q1).queues);
            assert(self@.queue_of(h) == q1);
            assert(old(self)@.queue_of(h) == p0);
            assert(self@.queue_handle_ok(h));
            assert forall|j: int| 0 <= j < self@.queues.len() && (#[trigger] self@.queues[j]).live implies self@.queues[j].queue is Some by {
                if j != i {
                    assert(self@.queues[j] == old(self)@.queues[j]);
                }
            }
            assert forall|j: int| 0 <= j < self@.queues.len() implies ((#[trigger] self@.queues[j]).queue matches Some(q) ==> q.wf()) by {
                if j != i {
                    assert(self@.queues[j] == old(self)@.queues[j]);
                }
            }
        }
        Ok(ok)
    }
}

/// `b` is `a` with only the kernel table and its counter changed.
pub open spec fn only_kernels_changed(a: RuntimeView, b: RuntimeView) -> bool {
    b == (RuntimeView { kernels: b.kernels, next_kernel_object: b.next_kernel_object, ..a })
}

/// The counter after handing out `id` (saturating).
pub open spec fn next_id(id: u64) -> u64 {
    if id == u64::MAX {
        u64::MAX
    } else {
        (id + 1) as u64
    }
}

/// `j` is the last entry for `name` in an index of symbols.
pub open spec fn last_entry(entries: Seq<(Seq<char>, usize)>, name: Seq<char>, j: int) -> bool {
    &&& 0 <= j < entries.len()
    &&& entries[j].0 == name
    &&& forall|k: int| j < k < entries.len() ==> (#[trigger] entries[k]).0 != name
}

impl Runtime {
    /// Registers an ISA kernel image; its `kernel_object` id for packets.
    pub fn register_isa_kernel(&mut self, name: &str, code: Vec<u8>) -> (r: Result<u64, RuntimeError>)
        requires
            old(self)@.wf(),
        ensures
            final(self)@.wf(),
            code@.len() == 0 ==> r == Err::<u64, RuntimeError>(RuntimeError::InvalidArgument) && final(self)@ == old(self)@,
            code@.len() > 0 ==> {
                let id = old(self)@.next_kernel_object;
                &&& r == Ok::<u64, RuntimeError>(id)
                &&& only_kernels_changed(old(self)@, final(self)@)
                &&& final(self)@.next_kernel_object == next_id(id)
                &&& lookup(final(self)@.kernels, id) matches Some(k) && k.name@ == name@ && k.code@ == code@
                    && k.kernarg_segment_size == 0 && k.group_segment_size == 0 && k.private_segment_size == 0
                &&& forall|x: u64| x != id ==> #[trigger] lookup(final(self)@.kernels, x) == lookup(old(self)@.kernels, x)
            },
    {
        self.register_isa_kernel_ex(name, code, 0, 0, 0)
    }

    /// Registers an ISA kernel image with its segment sizes.
    pub fn register_isa_kernel_ex(
        &mut self,
        name: &str,
        code: Vec<u8>,
        kernarg_segment_size: u32,
        group_segment_size: u32,
        private_segment_size: u32,
    ) -> (r: Result<u64, RuntimeError>)
        requires
            old(self)@.wf(),
        ensures
            final(self)@.wf(),
            code@.len() == 0 ==> r == Err::<u64, RuntimeError>(RuntimeError::InvalidArgument) && final(self)@ == old(self)@,
            code@.len() > 0 ==> {
                let id = old(self)@.next_kernel_object;
                &&& r == Ok::<u64, RuntimeError>(id)
                &&& only_kernels_changed(old(self)@, final(self)@)
                &&& final(self)@.next_kernel_object == next_id(id)
                &&& lookup(final(self)@.kernels, id) matches Some(k) && k.name@ == name@ && k.code@ == code@
                    && k.kernarg_segment_size == kernarg_segment_size && k.group_segment_size == group_segment_size
                    && k.private_segment_size == private_segment_size
                &&& forall|x: u64| x != id ==> #[trigger] lookup(final(self)@.kernels, x) == lookup(old(self)@.kernels, x)
            },
    {
        if code.len() == 0 {
            return Err(RuntimeError::InvalidArgument);
        }
        let id = self.next_kernel_object;
        self.next_kernel_object = if id == u64::MAX { u64::MAX } else { id + 1 };
        let k = RegisteredIsaKernel {
            name: owned(name),
            code,
            kernarg_segment_size,
            group_segment_size,
            private_segment_size,
        };
        insert_key(&mut self.isa_kernels, id, k);
        assert(lookup(self@.kernels, id) == Some(k));
        Ok(id)
    }

    /// Registers the built-in `tiny_add` kernel (16 bytes of kernargs).
    pub fn register_builtin_tiny_add(&mut self) -> (r: Result<u64, RuntimeError>)
        requires
            old(self)@.wf(),
        ensures
            final(self)@.wf(),
            r == Ok::<u64, RuntimeError>(old(self)@.next_kernel_object),
            only_kernels_changed(old(self)@, final(self)@),
            lookup(final(self)@.kernels, old(self)@.next_kernel_object) matches Some(k) && k.name@ == "tiny_add"@ && k.code@
                == tiny_add_text_spec() && k.kernarg_segment_size == 16,
    {
        let code = tiny_add_text();
        proof { reveal_strlit("tiny_add"); }
        assert(code@.len() > 0);
        self.register_isa_kernel_ex("tiny_add", code, 16, 0, 0)
    }

    /// The kernel registered under `kernel_object`.
    pub fn lookup_isa_kernel(&self, kernel_object: u64) -> (r: Option<&RegisteredIsaKernel>)
        requires
            self@.wf(),
        ensures
            match r {
                Some(k) => lookup(self@.kernels, kernel_object) == Some(*k),
                None => lookup(self@.kernels, kernel_object) is None,
            },
    {
        match find_key(&self.isa_kernels, kernel_object) {
            Some(i) => {
                proof { lemma_lookup_at(self@.kernels, i as int); }
                Some(&self.isa_kernels[i].1)
            },
            None => None,
        }
    }

    /// Keeps a copy of code-object bytes; the reader's id.
    pub fn code_object_reader_create_from_memory(&mut self, bytes: &[u8]) -> (r: Result<u64, RuntimeError>)
        requires
            old(self)@.wf(),
        ensures
            final(self)@.wf(),
            bytes@.len() == 0 ==> r == Err::<u64, RuntimeError>(RuntimeError::InvalidArgument) && final(self)@ == old(self)@,
            bytes@.len() > 0 ==> {
                let id = old(self)@.next_reader_id;
                &&& r == Ok::<u64, RuntimeError>(id)
                &&& final(self)@ == (RuntimeView {
                    readers: final(self)@.readers,
                    next_reader_id: next_id(id),
                    ..old(self)@
                })
                &&& lookup(final(self)@.readers, id) matches Some(rd) && rd.bytes@ == bytes@
                &&& forall|x: u64| x != id ==> #[trigger] lookup(final(self)@.readers, x) == lookup(old(self)@.readers, x)
            },
    {
        if bytes.len() == 0 {
            return Err(RuntimeError::InvalidArgument);
        }
        let id = self.next_reader_id;
        self.next_reader_id = if id == u64::MAX { u64::MAX } else { id + 1 };
        let mut copy: Vec<u8> = Vec::new();
        crate::bytes::push_slice(&mut copy, bytes);
        let rd = CodeObjectReader { bytes: copy };
        insert_key(&mut self.code_object_readers, id, rd);
        assert(lookup(self@.readers, id) == Some(rd));
        Ok(id)
    }

    /// Drops a code-object reader.
    pub fn code_object_reader_destroy(&mut self, reader_id: u64) -> (r: Result<(), RuntimeError>)
        requires
            old(self)@.wf(),
        ensures
            final(self)@.wf(),
            lookup(old(self)@.readers, reader_id) is None ==> r == Err::<(), RuntimeError>(RuntimeError::InvalidArgument)
                && final(self)@ == old(self)@,
            lookup(old(self)@.readers, reader_id) is Some ==> r is Ok && final(self)@ == (RuntimeView {
                readers: final(self)@.readers,
                ..old(self)@
            }) && forall|x: u64| #[trigger] lookup(final(self)@.readers, x) == if x == reader_id {
                None
            } else {
                lookup(old(self)@.readers, x)
            },
    {
        match remove_key(&mut self.code_object_readers, reader_id) {
            Some(_) => Ok(()),
            None => Err(RuntimeError::InvalidArgument),
        }
    }
}

impl Runtime {
    /// Creates an empty, unfrozen executable; its id.
    pub fn executable_create(&mut self) -> (r: Result<u64, RuntimeError>)
        requires
            old(self)@.wf(),
        ensures
            final(self)@.wf(),
            r == Ok::<u64, RuntimeError>(old(self)@.next_executable_id),
            final(self)@ == (RuntimeView {
                executables: final(self)@.executables,
                next_executable_id: next_id(old(self)@.next_executable_id),
                ..old(self)@
            }),
            lookup(final(self)@.executables, old(self)@.next_executable_id) matches Some(e) && !e.frozen && e.symbols@.len() == 0,
            forall|x: u64|
                x != old(self)@.next_executable_id ==> #[trigger] lookup(final(self)@.executables, x) == lookup(
                    old(self)@.executables,
                    x,
                ),
    {
        let id = self.next_executable_id;
        self.next_executable_id = if id == u64::MAX { u64::MAX } else { id + 1 };
        let e = SoftGpuExecutable { frozen: false, symbols: Vec::new() };
        insert_key(&mut self.executables, id, e);
        assert(lookup(self@.executables, id) == Some(e));
        Ok(id)
    }

    /// Destroys an executable with its symbol handles and the kernels its
    /// symbols registered.
    pub fn executable_destroy(&mut self, exec_id: u64) -> (r: Result<(), RuntimeError>)
        requires
            old(self)@.wf(),
        ensures
            final(self)@.wf(),
            lookup(old(self)@.executables, exec_id) is None ==> r == Err::<(), RuntimeError>(RuntimeError::InvalidArgument)
                && final(self)@ == old(self)@,
            lookup(old(self)@.executables, exec_id) matches Some(e) ==> {
                &&& r is Ok
                &&& final(self)@ == (RuntimeView {
                    executables: final(self)@.executables,
                    symbols: final(self)@.symbols,
                    kernels: final(self)@.kernels,
                    ..old(self)@
                })
                &&& forall|x: u64| #[trigger] lookup(final(self)@.executables, x) == if x == exec_id {
                    None
                } else {
                    lookup(old(self)@.executables, x)
                }
                &&& forall|x: u64| #[trigger] lookup(final(self)@.symbols, x) == match lookup(old(self)@.symbols, x) {
                    Some(s) => if s.0 == exec_id { None } else { Some(s) },
                    None => None,
                }
                &&& forall|i: int| 0 <= i < e.symbols@.len() ==> lookup(final(self)@.kernels, #[trigger] e.symbols@[i].kernel_object) is None
            },
    {
        let e = match remove_key(&mut self.executables, exec_id) {
            Some(e) => e,
            None => {
                return Err(RuntimeError::InvalidArgument);
            },
        };
        remove_owned(&mut self.executable_symbols, exec_id);
        let ghost mid = self@;
        let mut i: usize = 0;
        while i < e.symbols.len()
            invariant
                self@.wf(),
                i <= e.symbols@.len(),
                self@ == (RuntimeView { kernels: self@.kernels, ..mid }),
                forall|j: int| 0 <= j < i ==> lookup(self@.kernels, #[trigger] e.symbols@[j].kernel_object) is None,
            decreases e.symbols@.len() - i,
        {
            let ghost before = self@.kernels;
            let _ = remove_key(&mut self.isa_kernels, e.symbols[i].kernel_object);
            proof {
                assert forall|j: int| 0 <= j < i + 1 implies lookup(self@.kernels, #[trigger] e.symbols@[j].kernel_object) is None by {
                    if j < i {
                        assert(lookup(before, e.symbols@[j].kernel_object) is None);
                    }
                }
            }
            i = i + 1;
        }
        Ok(())
    }

    /// Loads the agent code object of reader `reader_id` into an unfrozen
    /// executable: each kernel it binds is registered and becomes a symbol.
    pub fn executable_load_agent_code_object(&mut self, exec_id: u64, reader_id: u64) -> (r: Result<(), RuntimeError>)
        requires
            old(self)@.wf(),
        ensures
            final(self)@.wf(),
            r is Err ==> r == Err::<(), RuntimeError>(RuntimeError::InvalidArgument),
            lookup(old(self)@.executables, exec_id) is None ==> r is Err && final(self)@ == old(self)@,
            lookup(old(self)@.executables, exec_id) matches Some(e) && e.frozen ==> r is Err && final(self)@ == old(self)@,
            lookup(old(self)@.readers, reader_id) is None ==> r is Err && final(self)@ == old(self)@,
            lookup(old(self)@.readers, reader_id) matches Some(rd) && crate::code_object::elf::header_fault(rd.bytes@) is Some
                ==> r is Err && final(self)@ == old(self)@,
            r is Ok ==> {
                let e0 = lookup(old(self)@.executables, exec_id)->0;
                let e1 = lookup(final(self)@.executables, exec_id)->0;
                &&& lookup(old(self)@.executables, exec_id) is Some
                &&& !e0.frozen
                &&& lookup(final(self)@.executables, exec_id) is Some
                &&& !e1.frozen
                &&& e1.symbols@.len() == e0.symbols@.len() + 1
                &&& e1.symbols@.subrange(0, e0.symbols@.len() as int) == e0.symbols@
                &&& e1.symbols@.last().kernel_object == old(self)@.next_kernel_object
                &&& e1.symbols@.last().launch_abi == LaunchAbi::SoftGpuCc
                &&& e1.symbols@.last().kernarg_segment_align >= 1
                &&& lookup(final(self)@.kernels, old(self)@.next_kernel_object) is Some
                &&& final(self)@ == (RuntimeView {
                    executables: final(self)@.executables,
                    kernels: final(self)@.kernels,
                    next_kernel_object: final(self)@.next_kernel_object,
                    ..old(self)@
                })
                &&& forall|x: u64| x != exec_id ==> #[trigger] lookup(final(self)@.executables, x) == lookup(
                    old(self)@.executables,
                    x,
                )
            },
    {
        let ei = match find_key(&self.executables, exec_id) {
            Some(i) => i,
            None => {
                return Err(RuntimeError::InvalidArgument);
            },
        };
        proof { lemma_lookup_at(self@.executables, ei as int); }
        if self.executables[ei].1.frozen {
            return Err(RuntimeError::InvalidArgument);
        }
        let ri = match find_key(&self.code_object_readers, reader_id) {
            Some(i) => i,
            None => {
                return Err(RuntimeError::InvalidArgument);
            },
        };
        proof { lemma_lookup_at(self@.readers, ri as int); }
        let kernels = match parse_agent_kernels(self.code_object_readers[ri].1.bytes.as_slice()) {
            Ok(ks) => ks,
            Err(_) => {
                return Err(RuntimeError::InvalidArgument);
            },
        };
        let ghost v0 = self@;
        let mut symbols: Vec<ExecutableSymbol> = Vec::new();
        let mut k: usize = 0;
        while k < kernels.len()
            invariant
                self@.wf(),
                v0.wf(),
                v0 == old(self)@,
                lookup(old(self)@.executables, exec_id) is Some,
                !lookup(old(self)@.executables, exec_id)->0.frozen,
                lookup(old(self)@.readers, reader_id) is Some,
                crate::code_object::elf::header_fault(lookup(old(self)@.readers, reader_id)->0.bytes@) is None,
                kernels@.len() == 1,
                kernels@[0].launch_abi == LaunchAbi::SoftGpuCc,
                k <= kernels@.len(),
                symbols@.len() == k,
                self@ == (RuntimeView { kernels: self@.kernels, next_kernel_object: self@.next_kernel_object, ..v0 }),
                k == 0 ==> self@ == v0,
                k == 1 ==> symbols@[0].kernel_object == v0.next_kernel_object && lookup(self@.kernels, v0.next_kernel_object)
                    is Some && symbols@[0].launch_abi == LaunchAbi::SoftGpuCc && symbols@[0].kernarg_segment_align >= 1,
            decreases kernels@.len() - k,
        {
            let lk = &kernels[k];
            let ko = self.register_isa_kernel_ex(
                lk.name.as_str(),
                lk.text.clone(),
                lk.kernarg_segment_size,
                lk.group_segment_size,
                lk.private_segment_size,
            )?;
            symbols.push(
                ExecutableSymbol {
                    name: lk.name.clone(),
                    symbol: lk.symbol.clone(),
                    kernel_object: ko,
                    kernarg_segment_size: lk.kernarg_segment_size,
                    kernarg_segment_align: if lk.kernarg_segment_align > 1 { lk.kernarg_segment_align } else { 1 },
                    group_segment_size: lk.group_segment_size,
                    private_segment_size: lk.private_segment_size,
                    launch_abi: lk.launch_abi,
                },
            );
            k = k + 1;
        }
        let mut e = match remove_key(&mut self.executables, exec_id) {
            Some(e) => e,
            None => {
                return Err(RuntimeError::InvalidArgument);
            },
        };
        let ghost syms0 = e.symbols@;
        let ghost new_syms = symbols@;
        e.symbols.append(&mut symbols);
        insert_key(&mut self.executables, exec_id, e);
        proof {
            assert(lookup(self@.executables, exec_id) == Some(e));
            assert(e.symbols@ == syms0 + new_syms);
            assert(e.symbols@.subrange(0, syms0.len() as int) =~= syms0);
        }
        Ok(())
    }
}

impl Runtime {
    /// Freezes an executable that has at least one symbol.
    pub fn executable_freeze(&mut self, exec_id: u64) -> (r: Result<(), RuntimeError>)
        requires
            old(self)@.wf(),
        ensures
            final(self)@.wf(),
            !(lookup(old(self)@.executables, exec_id) matches Some(e) && e.symbols@.len() > 0) ==> r == Err::<(), RuntimeError>(
                RuntimeError::InvalidArgument,
            ) && final(self)@ == old(self)@,
            lookup(old(self)@.executables, exec_id) matches Some(e) && e.symbols@.len() > 0 ==> {
                let e = lookup(old(self)@.executables, exec_id)->0;
                &&& r is Ok
                &&& final(self)@ == (RuntimeView { executables: final(self)@.executables, ..old(self)@ })
                &&& lookup(final(self)@.executables, exec_id) matches Some(f) && f.frozen && f.symbols@ == e.symbols@
                &&& forall|x: u64| x != exec_id ==> #[trigger] lookup(final(self)@.executables, x) == lookup(
                    old(self)@.executables,
                    x,
                )
            },
    {
        match find_key(&self.executables, exec_id) {
            None => {
                return Err(RuntimeError::InvalidArgument);
            },
            Some(i) => {
                proof { lemma_lookup_at(self@.executables, i as int); }
                if self.executables[i].1.symbols.len() == 0 {
                    return Err(RuntimeError::InvalidArgument);
                }
            },
        }
        let mut e = match remove_key(&mut self.executables, exec_id) {
            Some(e) => e,
            None => {
                return Err(RuntimeError::InvalidArgument);
            },
        };
        e.frozen = true;
        insert_key(&mut self.executables, exec_id, e);
        assert(lookup(self@.executables, exec_id) == Some(e));
        Ok(())
    }

    /// Whether an executable is frozen.
    pub fn executable_is_frozen(&self, exec_id: u64) -> (r: Result<bool, RuntimeError>)
        requires
            self@.wf(),
        ensures
            match lookup(self@.executables, exec_id) {
                Some(e) => r == Ok::<bool, RuntimeError>(e.frozen),
                None => r == Err::<bool, RuntimeError>(RuntimeError::InvalidArgument),
            },
    {
        match find_key(&self.executables, exec_id) {
            Some(i) => {
                proof { lemma_lookup_at(self@.executables, i as int); }
                Ok(self.executables[i].1.frozen)
            },
            None => Err(RuntimeError::InvalidArgument),
        }
    }

    /// A symbol handle for `name` in a frozen executable: the name matches a
    /// kernel's name, its symbol, or its symbol without `.kd`; the last
    /// symbol indexed under it wins.
    pub fn executable_get_symbol_by_name(&mut self, exec_id: u64, name: &str) -> (r: Result<u64, RuntimeError>)
        requires
            old(self)@.wf(),
        ensures
            final(self)@.wf(),
            r is Err ==> r == Err::<u64, RuntimeError>(RuntimeError::InvalidArgument) && final(self)@ == old(self)@,
            !(lookup(old(self)@.executables, exec_id) matches Some(e) && e.frozen) ==> r is Err,
            lookup(old(self)@.executables, exec_id) matches Some(e) && e.frozen ==> {
                let entries = index_entries(lookup(old(self)@.executables, exec_id)->0.symbols@);
                &&& (forall|j: int| 0 <= j < entries.len() ==> (#[trigger] entries[j]).0 != name@) ==> r is Err
                &&& r is Ok ==> {
                    let id = old(self)@.next_symbol_id;
                    &&& r == Ok::<u64, RuntimeError>(id)
                    &&& final(self)@ == (RuntimeView {
                        symbols: final(self)@.symbols,
                        next_symbol_id: next_id(id),
                        ..old(self)@
                    })
                    &&& exists|j: int|
                        last_entry(entries, name@, j) && lookup(final(self)@.symbols, id) == Some((exec_id, entries[j].1))
                    &&& forall|x: u64| x != id ==> #[trigger] lookup(final(self)@.symbols, x) == lookup(old(self)@.symbols, x)
                }
                &&& (exists|j: int| 0 <= j < entries.len() && (#[trigger] entries[j]).0 == name@) ==> r is Ok
            },
    {
        let ei = match find_key(&self.executables, exec_id) {
            Some(i) => i,
            None => {
                return Err(RuntimeError::InvalidArgument);
            },
        };
        proof { lemma_lookup_at(self@.executables, ei as int); }
        if !self.executables[ei].1.frozen {
            return Err(RuntimeError::InvalidArgument);
        }
        let idx_map = index_symbols(self.executables[ei].1.symbols.as_slice());
        let ghost entries = index_entries(self@.executables[ei as int].1.symbols@);
        assert(idx_map@.map_values(|e: (String, usize)| (e.0@, e.1)) == entries);
        let mut j: usize = idx_map.len();
        let mut found: Option<usize> = None;
        while j > 0
            invariant_except_break
                found is None,
                forall|k: int| j <= k < entries.len() ==> (#[trigger] entries[k]).0 != name@,
            invariant
                j <= idx_map@.len(),
                idx_map@.len() == entries.len(),
                forall|k: int| 0 <= k < idx_map@.len() ==> #[trigger] entries[k] == (idx_map@[k].0@, idx_map@[k].1),
            ensures
                found matches Some(x) ==> j < entries.len() && entries[j as int].0 == name@ && entries[j as int].1 == x
                    && forall|k: int| j < k < entries.len() ==> (#[trigger] entries[k]).0 != name@,
                found is None ==> forall|k: int| 0 <= k < entries.len() ==> (#[trigger] entries[k]).0 != name@,
            decreases j,
        {
            j = j - 1;
            assert(entries[j as int] == (idx_map@[j as int].0@, idx_map@[j as int].1));
            if crate::text::str_eq(idx_map[j].0.as_str(), name) {
                found = Some(idx_map[j].1);
                break;
            }
        }
        let sym_idx = match found {
            Some(x) => x,
            None => {
                return Err(RuntimeError::InvalidArgument);
            },
        };
        let id = self.next_symbol_id;
        self.next_symbol_id = if id == u64::MAX { u64::MAX } else { id + 1 };
        insert_key(&mut self.executable_symbols, id, (exec_id, sym_idx));
        proof {
            assert(last_entry(entries, name@, j as int));
            assert(lookup(self@.symbols, id) == Some((exec_id, entries[j as int].1)));
        }
        Ok(id)
    }

    /// The symbol a symbol handle names.
    fn symbol_at(&self, symbol_id: u64) -> (r: Option<&ExecutableSymbol>)
        requires
            self@.wf(),
        ensures
            match r {
                Some(sym) => lookup(self@.symbols, symbol_id) matches Some(s) && lookup(self@.executables, s.0) matches Some(e)
                    && s.1 < e.symbols@.len() && *sym == e.symbols@[s.1 as int],
                None => !(lookup(self@.symbols, symbol_id) matches Some(s) && lookup(self@.executables, s.0) matches Some(e)
                    && s.1 < e.symbols@.len()),
            },
    {
        let si = match find_key(&self.executable_symbols, symbol_id) {
            Some(i) => i,
            None => {
                return None;
            },
        };
        proof { lemma_lookup_at(self@.symbols, si as int); }
        let (eid, idx) = self.executable_symbols[si].1;
        let ei = match find_key(&self.executables, eid) {
            Some(i) => i,
            None => {
                return None;
            },
        };
        proof { lemma_lookup_at(self@.executables, ei as int); }
        if idx >= self.executables[ei].1.symbols.len() {
            return None;
        }
        Some(&self.executables[ei].1.symbols[idx])
    }

    /// The kernel object a symbol handle names.
    pub fn executable_symbol_kernel_object(&self, symbol_id: u64) -> (r: Result<u64, RuntimeError>)
        requires
            self@.wf(),
        ensures
            match r {
                Ok(ko) => lookup(self@.symbols, symbol_id) matches Some(s) && lookup(self@.executables, s.0) matches Some(e)
                    && s.1 < e.symbols@.len() && ko == e.symbols@[s.1 as int].kernel_object,
                Err(err) => err == RuntimeError::InvalidArgument && !(lookup(self@.symbols, symbol_id) matches Some(s)
                    && lookup(self@.executables, s.0) matches Some(e) && s.1 < e.symbols@.len()),
            },
    {
        match self.symbol_at(symbol_id) {
            Some(sym) => Ok(sym.kernel_object),
            None => Err(RuntimeError::InvalidArgument),
        }
    }

    /// The symbol a symbol handle names.
    pub fn executable_symbol_info(&self, symbol_id: u64) -> (r: Result<&ExecutableSymbol, RuntimeError>)
        requires
            self@.wf(),
        ensures
            match r {
                Ok(sym) => lookup(self@.symbols, symbol_id) matches Some(s) && lookup(self@.executables, s.0) matches Some(e)
                    && s.1 < e.symbols@.len() && *sym == e.symbols@[s.1 as int],
                Err(err) => err == RuntimeError::InvalidArgument && !(lookup(self@.symbols, symbol_id) matches Some(s)
                    && lookup(self@.executables, s.0) matches Some(e) && s.1 < e.symbols@.len()),
            },
    {
        match self.symbol_at(symbol_id) {
            Some(sym) => Ok(sym),
            None => Err(RuntimeError::InvalidArgument),
        }
    }

    /// The validated dispatches captured so far, oldest first.
    pub fn dispatch_captures(&self) -> (r: &[DispatchDescriptor])
        ensures
            r@ == self@.captures,
    {
        self.dispatch_captures.as_slice()
    }

    /// Traces a call to an API the session does not support.
    pub fn record_unsupported(&mut self, api: &str, detail: &str)
        requires
            old(self)@.wf(),
        ensures
            final(self)@.wf(),
            same_but_trace(old(self)@, final(self)@),
            logged_one(old(self)@.trace, final(self)@.trace),
            (final(self)@.trace.events@.last() matches TraceEvent::Unsupported { seq, api: a, detail: d } && seq == bump_seq(
                old(self)@.trace.seq,
            ) && a@ == api@ && d@ == detail@),
    {
        let seq = self.trace.next_seq();
        self.trace.record(TraceEvent::Unsupported { seq, api: owned(api), detail: owned(detail) });
    }
}

/// Installs a session over `profile` into `holder`; refused while the
/// session already there is initialized, or when the profile does not
/// validate (then `holder` is left as it was).
pub fn install_runtime(holder: &mut Option<Runtime>, profile: DeviceProfile) -> (r: Result<(), Error>)
    ensures
        (*old(holder) matches Some(rt) && rt@.refcount > 0) ==> r is Err && r->Err_0.category
            == super::error::ErrorCategory::Internal && *final(holder) == *old(holder),
        !(*old(holder) matches Some(rt) && rt@.refcount > 0) ==> {
            &&& r is Ok <==> profile_valid(profile)
            &&& r is Err ==> *final(holder) == *old(holder)
            &&& r is Ok ==> (*final(holder) matches Some(rt) && rt@.wf() && rt@.refcount == 0 && rt@.profile == profile)
        },
{
    match holder {
        Some(rt) => {
            if rt.is_initialized() {
                return Err(
                    Error::new(super::error::ErrorCategory::Internal, "cannot replace SoftGPU runtime while initialized"),
                );
            }
        },
        None => {},
    }
    let rt = Runtime::new(profile)?;
    *holder = Some(rt);
    Ok(())
}

/// Runs `f` on the session in `holder`; `NotInitialized` when there is none.
pub fn with_runtime<R, F: FnOnce(&mut Runtime) -> R>(holder: &mut Option<Runtime>, f: F) -> (r: Result<R, RuntimeError>)
    requires
        forall|rt: &mut Runtime| call_requires(f, (rt,)),
    ensures
        *old(holder) is None ==> r == Err::<R, RuntimeError>(RuntimeError::NotInitialized) && *final(holder) is None,
        *old(holder) is Some ==> r is Ok && *final(holder) is Some,
{
    match holder {
        Some(rt) => Ok(f(rt)),
        None => Err(RuntimeError::NotInitialized),
    }
}

/// A session that is down resolves no handle of any kind: after the last
/// shutdown every agent, region, pool, signal and queue handle is stale.
pub proof fn lemma_down_resolves_nothing(v: RuntimeView, h: PackedHandle)
    requires
        v.is_down(),
    ensures
        !v.agent_handle_ok(h),
        !v.space_handle_ok(h, HandleKind::Region),
        !v.space_handle_ok(h, HandleKind::MemoryPool),
        !v.signal_handle_ok(h),
        !v.queue_handle_ok(h),
{
}

/// A generation never equals the one after it: a slot recycled with the
/// next generation never matches a handle of the old one.
pub proof fn lemma_next_gen_differs(g: u32)
    requires
        1 <= g <= 0xFF_FFFF,
    ensures
        next_gen(g) != g,
        1 <= next_gen(g) <= 0xFF_FFFF,
{
}

impl Runtime {
    /// Writes `data` at `dst` as the host sees its memory: the range must lie
    /// inside one live allocation; afterwards it reads back as `data`.
    pub fn memory_write(&mut self, dst: u64, data: &[u8]) -> (r: Result<(), RuntimeError>)
        requires
            old(self)@.wf(),
        ensures
            final(self)@.wf(),
            old(self)@.refcount == 0 ==> r == Err::<(), RuntimeError>(RuntimeError::NotInitialized)
                && final(self)@ == old(self)@,
            old(self)@.refcount > 0 ==> {
                &&& final(self)@ == (RuntimeView { allocator: final(self)@.allocator, ..old(self)@ })
                &&& final(self)@.allocator.metas() == old(self)@.allocator.metas()
                &&& r is Ok <==> window_exists(old(self)@.allocator, dst, data@.len())
                &&& r is Err ==> r == Err::<(), RuntimeError>(RuntimeError::InvalidArgument) && final(self)@ == old(self)@
                &&& r is Ok ==> window(final(self)@.allocator, dst, data@.len()) == Some(data@)
            },
    {
        if !self.is_initialized() {
            return Err(RuntimeError::NotInitialized);
        }
        let ghost a0 = self.allocator;
        match self.allocator.write_bytes_at(dst, data) {
            Ok(()) => {},
            Err(_) => {
                proof {
                    if window_exists(a0, dst, data@.len()) {
                        let i = choose|i: int| 0 <= i < a0.live@.len() && #[trigger] covers(a0.live@[i].meta, dst) && dst
                            - a0.live@[i].meta.ptr + data@.len() <= a0.live@[i].meta.size;
                        assert(a0.live@[i].meta.host_writable);
                    }
                }
                return Err(RuntimeError::InvalidArgument);
            },
        }
        proof {
            let a1 = self.allocator;
            let i = choose|i: int|
                0 <= i < a0.live@.len() && covers(a0.live@[i].meta, dst) && {
                    let off = dst - a0.live@[i].meta.ptr;
                    let d0 = a0.live@[i].data@;
                    &&& a1.live@[i].data@ == d0.subrange(0, off) + data@ + d0.subrange(off + data@.len(), d0.len() as int)
                    &&& forall|j: int| 0 <= j < a0.live@.len() && j != i ==> #[trigger] a1.live@[j] == a0.live@[j]
                };
            a0.lemma_cover_unique(dst, i);
            assert(a1.metas()[i] == a0.metas()[i]);
            assert(a1.live@[i].meta == a0.live@[i].meta);
            lemma_window_at(a1, dst, data@.len(), i);
            let off = dst - a0.live@[i].meta.ptr;
            assert(a1.live@[i].data@.subrange(off as int, off + data@.len()) =~= data@);
            lemma_host_rw_metas(a0);
            lemma_host_rw_metas(a1);
        }
        Ok(())
    }

    /// Reads `len` bytes at `src` as the host sees its memory: the range
    /// must lie inside one live allocation.
    pub fn memory_read(&self, src: u64, len: usize) -> (r: Result<Vec<u8>, RuntimeError>)
        requires
            self@.wf(),
        ensures
            self@.refcount == 0 ==> r is Err && r->Err_0 == RuntimeError::NotInitialized,
            self@.refcount > 0 ==> {
                &&& r is Ok <==> window_exists(self@.allocator, src, len as nat)
                &&& r is Err ==> r->Err_0 == RuntimeError::InvalidArgument
                &&& r matches Ok(v) ==> window(self@.allocator, src, len as nat) == Some(v@)
            },
    {
        if !self.is_initialized() {
            return Err(RuntimeError::NotInitialized);
        }
        let mut buf: Vec<u8> = Vec::new();
        crate::bytes::push_zeros(&mut buf, len);
        let a0 = &self.allocator;
        match self.allocator.read_bytes_at(src, buf.as_mut_slice()) {
            Ok(()) => {},
            Err(_) => {
                proof {
                    if window_exists(*a0, src, len as nat) {
                        let i = choose|i: int| 0 <= i < a0.live@.len() && #[trigger] covers(a0.live@[i].meta, src) && src
                            - a0.live@[i].meta.ptr + len <= a0.live@[i].meta.size;
                        assert(a0.live@[i].meta.host_readable);
                    }
                }
                return Err(RuntimeError::InvalidArgument);
            },
        }
        proof {
            let i = choose|i: int|
                0 <= i < a0.live@.len() && covers(a0.live@[i].meta, src) && buf@ == a0.live@[i].data@.subrange(
                    src - a0.live@[i].meta.ptr,
                    src - a0.live@[i].meta.ptr + len,
                );
            a0.lemma_cover_unique(src, i);
            assert(src - a0.live@[i].meta.ptr + len <= a0.live@[i].meta.size);
            lemma_window_at(*a0, src, len as nat, i);
        }
        Ok(buf)
    }

    /// The 64 bytes of packet `packet_index`'s slot in queue `h`'s ring.
    pub fn queue_read_packet(&self, h: PackedHandle, packet_index: u64) -> (r: Result<Vec<u8>, RuntimeError>)
        requires
            self@.wf(),
        ensures
            self@.refcount == 0 ==> r is Err && r->Err_0 == RuntimeError::NotInitialized,
            self@.refcount > 0 && !self@.queue_handle_ok(h) ==> r is Err && r->Err_0 == RuntimeError::InvalidQueue,
            self@.refcount > 0 && self@.queue_handle_ok(h) ==> (r matches Ok(b) && ({
                let q = self@.queue_of(h);
                slot_in_ring(q.packets@, q.size, packet_index) ==> ({
                    let sz: int = if q.size == 0 { 1 } else { q.size as int };
                    let o = (packet_index % (sz as u64)) * 64;
                    b@ == q.packets@.subrange(o as int, o + 64)
                })
            })),
    {
        if !self.is_initialized() {
            return Err(RuntimeError::NotInitialized);
        }
        let i = self.resolve_queue(h)?;
        match &self.queues[i].queue {
            Some(q) => {
                proof {
                    assert(q.packets@.len() % 64 == 0) by (nonlinear_arith)
                        requires
                            q.packets@.len() == q.size * 64,
                    ;
                }
                Ok(q.packet_bytes(packet_index))
            },
            None => Err(RuntimeError::InvalidQueue),
        }
    }
}

} // verus!
