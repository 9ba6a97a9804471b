//! AQL packet decoding and validation (no kernel execution here).
//!
//! Layout: `hsa_kernel_dispatch_packet_t` under `HSA_LARGE_MODEL`, 64 bytes.
use super::queue::{AQL_PACKET_BYTES, PACKET_TYPE_INVALID, PACKET_TYPE_KERNEL_DISPATCH};
use crate::bytes::{le16, le32, le64, le_bytes, le_u16_at, le_u32_at, le_u64_at, push_le_u16, push_le_u32, push_le_u64, push_zeros, zeros};
use crate::text::owned;
use vstd::prelude::*;

verus! {

/// `HSA_PACKET_TYPE_BARRIER_AND`.
pub const PACKET_TYPE_BARRIER_AND: u16 = 3;

/// `HSA_PACKET_TYPE_AGENT_DISPATCH`.
pub const PACKET_TYPE_AGENT_DISPATCH: u16 = 4;

/// `HSA_PACKET_TYPE_BARRIER_OR`.
pub const PACKET_TYPE_BARRIER_OR: u16 = 5;

/// Completion label: the packet was diagnosed but nothing executed.
pub const DIAGNOSTIC_COMPLETE_NO_EXECUTION: &'static str = "diagnostic_complete_no_execution";

/// Completion label: the packet was rejected.
pub const DIAGNOSTIC_REJECTED: &'static str = "diagnostic_rejected";

/// Completion label: a registered ISA kernel ran to `s_endpgm`.
pub const KERNEL_SUCCESS: &'static str = "softgpu_kernel_success";

/// Packet type from the header's type byte.
#[derive(Debug, Clone, Copy, PartialEq, Eq, Structural)]
pub enum PacketType {
    Invalid,
    KernelDispatch,
    BarrierAnd,
    AgentDispatch,
    BarrierOr,
    VendorOrUnknown(u16),
}

pub open spec fn packet_type_of(ty: u16) -> PacketType {
    let t = ty % 256;
    if t == 1 {
        PacketType::Invalid
    } else if t == 2 {
        PacketType::KernelDispatch
    } else if t == 3 {
        PacketType::BarrierAnd
    } else if t == 4 {
        PacketType::AgentDispatch
    } else if t == 5 {
        PacketType::BarrierOr
    } else {
        PacketType::VendorOrUnknown(t as u16)
    }
}

pub open spec fn packet_type_code(p: PacketType) -> u16 {
    match p {
        PacketType::Invalid => 1,
        PacketType::KernelDispatch => 2,
        PacketType::BarrierAnd => 3,
        PacketType::AgentDispatch => 4,
        PacketType::BarrierOr => 5,
        PacketType::VendorOrUnknown(v) => v,
    }
}

impl PacketType {
    pub fn from_header_type(ty: u16) -> (r: Self)
        ensures
            r == packet_type_of(ty),
    {
        let t = ty % 256;
        if t == 1 {
            PacketType::Invalid
        } else if t == 2 {
            PacketType::KernelDispatch
        } else if t == 3 {
            PacketType::BarrierAnd
        } else if t == 4 {
            PacketType::AgentDispatch
        } else if t == 5 {
            PacketType::BarrierOr
        } else {
            PacketType::VendorOrUnknown(t)
        }
    }

    pub fn as_u16(self) -> (r: u16)
        ensures
            r == packet_type_code(self),
    {
        match self {
            PacketType::Invalid => PACKET_TYPE_INVALID,
            PacketType::KernelDispatch => PACKET_TYPE_KERNEL_DISPATCH,
            PacketType::BarrierAnd => PACKET_TYPE_BARRIER_AND,
            PacketType::AgentDispatch => PACKET_TYPE_AGENT_DISPATCH,
            PacketType::BarrierOr => PACKET_TYPE_BARRIER_OR,
            PacketType::VendorOrUnknown(v) => v,
        }
    }
}

/// How a kernarg pointer is classified, without claiming its contents.
#[derive(Debug, Clone, PartialEq, Eq, Structural)]
pub enum KernargClass {
    Null,
    /// A tracked allocation (its id when known).
    SoftGpu { alloc_id: Option<u64>, addr: u64 },
    /// A non-null pointer the runtime does not own; opaque for replay.
    ForeignOpaque { addr: u64 },
}

/// Normalized dispatch descriptor.
#[derive(Debug, Clone, PartialEq, Eq)]
pub struct DispatchDescriptor {
    pub packet_index: u64,
    pub packet_type: PacketType,
    pub header: u16,
    pub setup: u16,
    pub dimensions: u16,
    pub workgroup_size: [u16; 3],
    pub grid_size: [u32; 3],
    pub private_segment_size: u32,
    pub group_segment_size: u32,
    pub kernel_object: u64,
    pub kernarg: KernargClass,
    pub completion_signal: u64,
    /// The packet's own bytes, for replay without live host pointers.
    pub captured_bytes: [u8; 64],
}

/// Why a packet was rejected.
#[derive(Debug, Clone, PartialEq, Eq)]
pub enum AqlParseError {
    WrongLength { got: usize },
    StillInvalid,
    UnsupportedType { packet_type: u16 },
    ZeroWorkgroup { dim: usize },
    GridSmallerThanWorkgroup { dim: usize },
    BadDimensions { dimensions: u16 },
    DimConstraint { detail: String },
}

/// Model of an [`AqlParseError`].
pub enum AqlFault {
    WrongLength(usize),
    StillInvalid,
    UnsupportedType(u16),
    ZeroWorkgroup(usize),
    GridSmallerThanWorkgroup(usize),
    BadDimensions(u16),
    DimConstraint(Seq<char>),
}

pub open spec fn fault_of(e: AqlParseError) -> AqlFault {
    match e {
        AqlParseError::WrongLength { got } => AqlFault::WrongLength(got),
        AqlParseError::StillInvalid => AqlFault::StillInvalid,
        AqlParseError::UnsupportedType { packet_type } => AqlFault::UnsupportedType(packet_type),
        AqlParseError::ZeroWorkgroup { dim } => AqlFault::ZeroWorkgroup(dim),
        AqlParseError::GridSmallerThanWorkgroup { dim } => AqlFault::GridSmallerThanWorkgroup(dim),
        AqlParseError::BadDimensions { dimensions } => AqlFault::BadDimensions(dimensions),
        AqlParseError::DimConstraint { detail } => AqlFault::DimConstraint(detail@),
    }
}

/// Workgroup size of dimension `d` (0..3) in packet bytes `b`.
pub open spec fn wg_at(b: Seq<u8>, d: int) -> int {
    le16(b, 4 + 2 * d)
}

/// Grid size of dimension `d` (0..3) in packet bytes `b`.
pub open spec fn grid_at(b: Seq<u8>, d: int) -> int {
    le32(b, 12 + 4 * d)
}

/// First failing workgroup/grid check at dimension `d` or later.
pub open spec fn size_fault(b: Seq<u8>, d: int) -> Option<AqlFault>
    decreases 3 - d,
{
    if d >= 3 || d < 0 {
        None
    } else if wg_at(b, d) == 0 {
        Some(AqlFault::ZeroWorkgroup(d as usize))
    } else if grid_at(b, d) < wg_at(b, d) {
        Some(AqlFault::GridSmallerThanWorkgroup(d as usize))
    } else {
        size_fault(b, d + 1)
    }
}

/// The rejection of a kernel-dispatch packet, or `None` when it is lawful.
pub open spec fn dispatch_fault(b: Seq<u8>) -> Option<AqlFault> {
    let ty = le16(b, 0) % 256;
    let dims = le16(b, 2) % 4;
    if b.len() != 64 {
        Some(AqlFault::WrongLength(b.len() as usize))
    } else if ty == 1 {
        Some(AqlFault::StillInvalid)
    } else if ty != 2 {
        Some(AqlFault::UnsupportedType(ty as u16))
    } else if dims == 0 {
        Some(AqlFault::BadDimensions(dims as u16))
    } else if size_fault(b, 0) is Some {
        size_fault(b, 0)
    } else if dims == 1 && (wg_at(b, 1) != 1 || wg_at(b, 2) != 1) {
        Some(AqlFault::DimConstraint("dims=1 requires workgroup y=z=1"@))
    } else if dims == 1 && (grid_at(b, 1) != 1 || grid_at(b, 2) != 1) {
        Some(AqlFault::DimConstraint("dims=1 requires grid y=z=1"@))
    } else if dims == 2 && (wg_at(b, 2) != 1 || grid_at(b, 2) != 1) {
        Some(AqlFault::DimConstraint("dims=2 requires workgroup/grid z=1"@))
    } else {
        None
    }
}

/// `d` holds the fields of kernel-dispatch packet `b` (all but the kernarg class).
pub open spec fn dispatch_fields(d: DispatchDescriptor, b: Seq<u8>, packet_index: u64) -> bool {
    &&& d.packet_index == packet_index
    &&& d.packet_type == PacketType::KernelDispatch
    &&& d.header == le16(b, 0)
    &&& d.setup == le16(b, 2)
    &&& d.dimensions == le16(b, 2) % 4
    &&& d.workgroup_size@ == seq![wg_at(b, 0) as u16, wg_at(b, 1) as u16, wg_at(b, 2) as u16]
    &&& d.grid_size@ == seq![grid_at(b, 0) as u32, grid_at(b, 1) as u32, grid_at(b, 2) as u32]
    &&& d.private_segment_size == le32(b, 24)
    &&& d.group_segment_size == le32(b, 28)
    &&& d.kernel_object == le64(b, 32)
    &&& d.completion_signal == le64(b, 56)
    &&& d.captured_bytes@ == b
}

/// The kernarg address field of packet `b`.
pub open spec fn kernarg_addr_of(b: Seq<u8>) -> u64 {
    le64(b, 40) as u64
}

fn capture(bytes: &[u8]) -> (r: [u8; 64])
    requires
        bytes@.len() == 64,
    ensures
        r@ == bytes@,
{
    let mut c = [0u8; 64];
    let mut i: usize = 0;
    while i < 64
        invariant
            i <= 64,
            bytes@.len() == 64,
            c@.len() == 64,
            forall|j: int| 0 <= j < i ==> c@[j] == bytes@[j],
        decreases 64 - i,
    {
        c[i] = bytes[i];
        i = i + 1;
    }
    assert(c@ =~= bytes@);
    c
}

/// Parse and validate a kernel-dispatch packet of exactly 64 bytes; the
/// kernarg pointer is classified by `classify_kernarg`.
pub fn parse_kernel_dispatch<F: FnOnce(u64) -> KernargClass>(bytes: &[u8], packet_index: u64, classify_kernarg: F) -> (r:
    Result<DispatchDescriptor, AqlParseError>)
    requires
        forall|a: u64| call_requires(classify_kernarg, (a,)),
    ensures
        match dispatch_fault(bytes@) {
            Some(f) => r matches Err(e) && fault_of(e) == f,
            None => r matches Ok(d) && dispatch_fields(d, bytes@, packet_index) && call_ensures(
                classify_kernarg,
                (kernarg_addr_of(bytes@),),
                d.kernarg,
            ),
        },
{
    if bytes.len() != AQL_PACKET_BYTES {
        return Err(AqlParseError::WrongLength { got: bytes.len() });
    }
    let header = le_u16_at(bytes, 0);
    let ty = header % 256;
    if ty == 1 {
        return Err(AqlParseError::StillInvalid);
    }
    if ty != 2 {
        return Err(AqlParseError::UnsupportedType { packet_type: ty });
    }
    let setup = le_u16_at(bytes, 2);
    let dimensions = setup % 4;
    if dimensions == 0 {
        return Err(AqlParseError::BadDimensions { dimensions });
    }
    let wg = [le_u16_at(bytes, 4), le_u16_at(bytes, 6), le_u16_at(bytes, 8)];
    let grid = [le_u32_at(bytes, 12), le_u32_at(bytes, 16), le_u32_at(bytes, 20)];
    let private_segment_size = le_u32_at(bytes, 24);
    let group_segment_size = le_u32_at(bytes, 28);
    let kernel_object = le_u64_at(bytes, 32);
    let kernarg_addr = le_u64_at(bytes, 40);
    let completion_signal = le_u64_at(bytes, 56);
    let ghost b = bytes@;
    assert(wg_at(b, 0) == wg[0] && wg_at(b, 1) == wg[1] && wg_at(b, 2) == wg[2]);
    assert(grid_at(b, 0) == grid[0] && grid_at(b, 1) == grid[1] && grid_at(b, 2) == grid[2]);
    let mut d: usize = 0;
    while d < 3
        invariant
            d <= 3,
            b == bytes@,
            b.len() == 64,
            wg_at(b, 0) == wg[0] && wg_at(b, 1) == wg[1] && wg_at(b, 2) == wg[2],
            grid_at(b, 0) == grid[0] && grid_at(b, 1) == grid[1] && grid_at(b, 2) == grid[2],
            size_fault(b, 0) == size_fault(b, d as int),
            le16(b, 0) % 256 == 2,
            le16(b, 2) % 4 != 0,
        decreases 3 - d,
    {
        assert(wg_at(b, d as int) == wg@[d as int] && grid_at(b, d as int) == grid@[d as int]);
        if wg[d] == 0 {
            return Err(AqlParseError::ZeroWorkgroup { dim: d });
        }
        if grid[d] < wg[d] as u32 {
            return Err(AqlParseError::GridSmallerThanWorkgroup { dim: d });
        }
        d = d + 1;
    }
    if dimensions == 1 && (wg[1] != 1 || wg[2] != 1) {
        return Err(AqlParseError::DimConstraint { detail: owned("dims=1 requires workgroup y=z=1") });
    }
    if dimensions == 1 && (grid[1] != 1 || grid[2] != 1) {
        return Err(AqlParseError::DimConstraint { detail: owned("dims=1 requires grid y=z=1") });
    }
    if dimensions == 2 && (wg[2] != 1 || grid[2] != 1) {
        return Err(AqlParseError::DimConstraint { detail: owned("dims=2 requires workgroup/grid z=1") });
    }
    let captured_bytes = capture(bytes);
    let kernarg = classify_kernarg(kernarg_addr);
    let r = DispatchDescriptor {
        packet_index,
        packet_type: PacketType::KernelDispatch,
        header,
        setup,
        dimensions,
        workgroup_size: wg,
        grid_size: grid,
        private_segment_size,
        group_segment_size,
        kernel_object,
        kernarg,
        completion_signal,
        captured_bytes,
    };
    assert(r.workgroup_size@ =~= seq![wg_at(b, 0) as u16, wg_at(b, 1) as u16, wg_at(b, 2) as u16]);
    assert(r.grid_size@ =~= seq![grid_at(b, 0) as u32, grid_at(b, 1) as u32, grid_at(b, 2) as u32]);
    Ok(r)
}

/// `d` is the minimal barrier descriptor of packet `b`.
pub open spec fn barrier_fields(d: DispatchDescriptor, b: Seq<u8>, packet_index: u64) -> bool {
    &&& d.packet_index == packet_index
    &&& d.packet_type == packet_type_of(le16(b, 0) as u16)
    &&& d.header == le16(b, 0)
    &&& d.setup == 0
    &&& d.dimensions == 0
    &&& d.workgroup_size@ == seq![0u16, 0u16, 0u16]
    &&& d.grid_size@ == seq![0u32, 0u32, 0u32]
    &&& d.private_segment_size == 0
    &&& d.group_segment_size == 0
    &&& d.kernel_object == 0
    &&& d.kernarg == KernargClass::Null
    &&& d.completion_signal == le64(b, 56)
    &&& d.captured_bytes@ == b
}

/// Rejection of a packet that is neither a barrier nor valid, for the barrier path.
pub open spec fn barrier_fault(b: Seq<u8>) -> Option<AqlFault> {
    let ty = le16(b, 0) % 256;
    if b.len() != 64 {
        Some(AqlFault::WrongLength(b.len() as usize))
    } else if ty == 3 || ty == 5 {
        None
    } else if ty == 1 {
        Some(AqlFault::StillInvalid)
    } else {
        Some(AqlFault::UnsupportedType(ty as u16))
    }
}

/// Minimal barrier accept: the header type and completion signal only
/// (dependency signals are not checked).
pub fn parse_barrier_minimal(bytes: &[u8], packet_index: u64) -> (r: Result<DispatchDescriptor, AqlParseError>)
    ensures
        match barrier_fault(bytes@) {
            Some(f) => r matches Err(e) && fault_of(e) == f,
            None => r matches Ok(d) && barrier_fields(d, bytes@, packet_index),
        },
{
    if bytes.len() != AQL_PACKET_BYTES {
        return Err(AqlParseError::WrongLength { got: bytes.len() });
    }
    let header = le_u16_at(bytes, 0);
    let ty = header % 256;
    let packet_type = PacketType::from_header_type(header);
    if ty == 1 {
        return Err(AqlParseError::StillInvalid);
    }
    if ty != 3 && ty != 5 {
        return Err(AqlParseError::UnsupportedType { packet_type: ty });
    }
    let r = DispatchDescriptor {
        packet_index,
        packet_type,
        header,
        setup: 0,
        dimensions: 0,
        workgroup_size: [0, 0, 0],
        grid_size: [0, 0, 0],
        private_segment_size: 0,
        group_segment_size: 0,
        kernel_object: 0,
        kernarg: KernargClass::Null,
        completion_signal: le_u64_at(bytes, 56),
        captured_bytes: capture(bytes),
    };
    assert(r.workgroup_size@ =~= seq![0u16, 0u16, 0u16]);
    assert(r.grid_size@ =~= seq![0u32, 0u32, 0u32]);
    Ok(r)
}

/// Outcome of decoding a packet of any type: a kernel dispatch, a barrier,
/// or the reason it is rejected.
pub open spec fn supported_fault(b: Seq<u8>) -> Option<AqlFault> {
    let ty = le16(b, 0) % 256;
    if b.len() != 64 {
        Some(AqlFault::WrongLength(b.len() as usize))
    } else if ty == 2 {
        dispatch_fault(b)
    } else {
        barrier_fault(b)
    }
}

/// Parse a packet of a supported type: kernel dispatch, barrier-and or barrier-or.
pub fn parse_supported_packet<F: FnOnce(u64) -> KernargClass>(bytes: &[u8], packet_index: u64, classify_kernarg: F) -> (r:
    Result<DispatchDescriptor, AqlParseError>)
    requires
        forall|a: u64| call_requires(classify_kernarg, (a,)),
    ensures
        match supported_fault(bytes@) {
            Some(f) => r matches Err(e) && fault_of(e) == f,
            None => r matches Ok(d) && if le16(bytes@, 0) % 256 == 2 {
                dispatch_fields(d, bytes@, packet_index) && call_ensures(
                    classify_kernarg,
                    (kernarg_addr_of(bytes@),),
                    d.kernarg,
                )
            } else {
                barrier_fields(d, bytes@, packet_index)
            },
        },
{
    if bytes.len() != AQL_PACKET_BYTES {
        return Err(AqlParseError::WrongLength { got: bytes.len() });
    }
    let header = le_u16_at(bytes, 0);
    if header % 256 == 2 {
        parse_kernel_dispatch(bytes, packet_index, classify_kernarg)
    } else {
        parse_barrier_minimal(bytes, packet_index)
    }
}

/// Kernarg class replay gives an address: null, else opaque (ownership
/// cannot be re-resolved from captured bytes).
pub open spec fn replay_class(addr: u64) -> KernargClass {
    if addr == 0 {
        KernargClass::Null
    } else {
        KernargClass::ForeignOpaque { addr }
    }
}

/// Replay the parser on captured bytes (no live host pointers).
pub fn replay_dispatch(bytes: &[u8], packet_index: u64) -> (r: Result<DispatchDescriptor, AqlParseError>)
    ensures
        match supported_fault(bytes@) {
            Some(f) => r matches Err(e) && fault_of(e) == f,
            None => r matches Ok(d) && if le16(bytes@, 0) % 256 == 2 {
                dispatch_fields(d, bytes@, packet_index) && d.kernarg == replay_class(kernarg_addr_of(bytes@))
            } else {
                barrier_fields(d, bytes@, packet_index)
            },
        },
{
    parse_supported_packet(bytes, packet_index, replay_kernarg)
}

fn replay_kernarg(addr: u64) -> (k: KernargClass)
    ensures
        k == replay_class(addr),
{
    if addr == 0 {
        KernargClass::Null
    } else {
        KernargClass::ForeignOpaque { addr }
    }
}

/// Bytes of a lawful minimal 1D kernel-dispatch packet.
pub open spec fn golden_spec(workgroup_x: u16, grid_x: u32, kernel_object: u64, kernarg: u64, completion_signal: u64) -> Seq<
    u8,
> {
    le_bytes(2, 2) + le_bytes(1, 2) + le_bytes(workgroup_x as int, 2) + le_bytes(1, 2) + le_bytes(1, 2) + zeros(2)
        + le_bytes(grid_x as int, 4) + le_bytes(1, 4) + le_bytes(1, 4) + zeros(8) + le_bytes(kernel_object as int, 8)
        + le_bytes(kernarg as int, 8) + zeros(8) + le_bytes(completion_signal as int, 8)
}

/// Build a lawful minimal 1D kernel-dispatch packet.
pub fn golden_kernel_dispatch_1d(workgroup_x: u16, grid_x: u32, kernel_object: u64, kernarg: u64, completion_signal: u64) -> (r: [u8; 64])
    ensures
        r@ == golden_spec(workgroup_x, grid_x, kernel_object, kernarg, completion_signal),
{
    let mut v: Vec<u8> = Vec::new();
    push_le_u16(&mut v, 2);
    push_le_u16(&mut v, 1);
    push_le_u16(&mut v, workgroup_x);
    push_le_u16(&mut v, 1);
    push_le_u16(&mut v, 1);
    push_zeros(&mut v, 2);
    push_le_u32(&mut v, grid_x);
    push_le_u32(&mut v, 1);
    push_le_u32(&mut v, 1);
    push_zeros(&mut v, 8);
    push_le_u64(&mut v, kernel_object);
    push_le_u64(&mut v, kernarg);
    push_zeros(&mut v, 8);
    push_le_u64(&mut v, completion_signal);
    assert(v@ =~= golden_spec(workgroup_x, grid_x, kernel_object, kernarg, completion_signal));
    capture(v.as_slice())
}

/// A golden 1D packet with a non-zero workgroup no larger than the grid is a
/// lawful kernel dispatch, and parsing gives back the values it was built
/// from; replaying its captured bytes parses the same way.
pub proof fn lemma_golden_parses(workgroup_x: u16, grid_x: u32, kernel_object: u64, kernarg: u64, completion_signal: u64)
    requires
        workgroup_x >= 1,
        grid_x >= workgroup_x,
    ensures
        ({
            let b = golden_spec(workgroup_x, grid_x, kernel_object, kernarg, completion_signal);
            &&& dispatch_fault(b) is None
            &&& supported_fault(b) is None
            &&& le16(b, 0) % 256 == 2
            &&& le16(b, 2) % 4 == 1
            &&& wg_at(b, 0) == workgroup_x && wg_at(b, 1) == 1 && wg_at(b, 2) == 1
            &&& grid_at(b, 0) == grid_x && grid_at(b, 1) == 1 && grid_at(b, 2) == 1
            &&& le64(b, 32) == kernel_object
            &&& kernarg_addr_of(b) == kernarg
            &&& le64(b, 56) == completion_signal
        }),
{
    let b = golden_spec(workgroup_x, grid_x, kernel_object, kernarg, completion_signal);
    crate::bytes::lemma_le16_of_bytes(2);
    crate::bytes::lemma_le16_of_bytes(1);
    crate::bytes::lemma_le16_of_bytes(workgroup_x);
    crate::bytes::lemma_le32_of_bytes(grid_x);
    crate::bytes::lemma_le32_of_bytes(1);
    crate::bytes::lemma_le64_of_bytes(kernel_object);
    crate::bytes::lemma_le64_of_bytes(kernarg);
    crate::bytes::lemma_le64_of_bytes(completion_signal);
    assert(b.subrange(0, 2) =~= le_bytes(2, 2));
    assert(b.subrange(2, 4) =~= le_bytes(1, 2));
    assert(b.subrange(4, 6) =~= le_bytes(workgroup_x as int, 2));
    assert(b.subrange(6, 8) =~= le_bytes(1, 2));
    assert(b.subrange(8, 10) =~= le_bytes(1, 2));
    assert(b.subrange(12, 16) =~= le_bytes(grid_x as int, 4));
    assert(b.subrange(16, 20) =~= le_bytes(1, 4));
    assert(b.subrange(20, 24) =~= le_bytes(1, 4));
    assert(b.subrange(32, 40) =~= le_bytes(kernel_object as int, 8));
    assert(b.subrange(40, 48) =~= le_bytes(kernarg as int, 8));
    assert(b.subrange(56, 64) =~= le_bytes(completion_signal as int, 8));
    assert(le16(b, 0) == le16(b.subrange(0, 2), 0));
    assert(le16(b, 2) == le16(b.subrange(2, 4), 0));
    assert(le16(b, 4) == le16(b.subrange(4, 6), 0));
    assert(le16(b, 6) == le16(b.subrange(6, 8), 0));
    assert(le16(b, 8) == le16(b.subrange(8, 10), 0));
    assert(le32(b, 12) == le32(b.subrange(12, 16), 0));
    assert(le32(b, 16) == le32(b.subrange(16, 20), 0));
    assert(le32(b, 20) == le32(b.subrange(20, 24), 0));
    assert(le64(b, 32) == le64(b.subrange(32, 40), 0));
    assert(le64(b, 40) == le64(b.subrange(40, 48), 0));
    assert(le64(b, 56) == le64(b.subrange(56, 64), 0));
    assert(wg_at(b, 0) == workgroup_x && wg_at(b, 1) == 1 && wg_at(b, 2) == 1);
    assert(grid_at(b, 0) == grid_x && grid_at(b, 1) == 1 && grid_at(b, 2) == 1);
    assert(size_fault(b, 3) is None);
    assert(size_fault(b, 2) is None);
    assert(size_fault(b, 1) is None);
    assert(size_fault(b, 0) is None);
}

/// Replaying the captured bytes of a parsed dispatch yields the same fields.
pub proof fn lemma_replay_same_fields(d: DispatchDescriptor, b: Seq<u8>, packet_index: u64, replayed: DispatchDescriptor)
    requires
        dispatch_fields(d, b, packet_index),
        dispatch_fields(replayed, d.captured_bytes@, packet_index),
    ensures
        replayed.header == d.header,
        replayed.setup == d.setup,
        replayed.dimensions == d.dimensions,
        replayed.workgroup_size@ == d.workgroup_size@,
        replayed.grid_size@ == d.grid_size@,
        replayed.private_segment_size == d.private_segment_size,
        replayed.group_segment_size == d.group_segment_size,
        replayed.kernel_object == d.kernel_object,
        replayed.completion_signal == d.completion_signal,
        replayed.captured_bytes@ == d.captured_bytes@,
{
}

} // verus!
