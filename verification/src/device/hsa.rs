//! The HSA adapter's decisions: status codes, attribute codes, and the
//! bytes an answer is written as. The C entry points that write those bytes
//! through caller pointers live outside the library.
use super::agent::{AgentInfoAttr, AgentKind};
use super::runtime::{AgentInfoValue, RuntimeError};
use crate::bytes::{
    le16, le32, le64, le_bytes, lemma_le16_of_bytes, lemma_le32_of_bytes, lemma_le64_of_bytes, push_le_u16, push_le_u32,
    push_le_u64, push_zeros,
};
use vstd::prelude::*;

verus! {

/// HSA status codes (the subset the adapter answers with).
pub const HSA_STATUS_SUCCESS: u32 = 0x0;

pub const HSA_STATUS_INFO_BREAK: u32 = 0x1;

pub const HSA_STATUS_ERROR: u32 = 0x1000;

pub const HSA_STATUS_ERROR_INVALID_ARGUMENT: u32 = 0x1001;

pub const HSA_STATUS_ERROR_INVALID_AGENT: u32 = 0x1004;

pub const HSA_STATUS_ERROR_NOT_INITIALIZED: u32 = 0x100B;

pub const HSA_STATUS_ERROR_REFCOUNT_OVERFLOW: u32 = 0x100C;

/// Agent attribute codes.
pub const HSA_AGENT_INFO_NAME: i32 = 0;

pub const HSA_AGENT_INFO_VENDOR_NAME: i32 = 1;

pub const HSA_AGENT_INFO_FEATURE: i32 = 2;

pub const HSA_AGENT_INFO_DEVICE: i32 = 17;

pub const HSA_AGENT_INFO_VERSION_MAJOR: i32 = 21;

pub const HSA_AGENT_INFO_VERSION_MINOR: i32 = 22;

/// Device type codes.
pub const HSA_DEVICE_TYPE_CPU: u32 = 0;

pub const HSA_DEVICE_TYPE_GPU: u32 = 1;

/// System attribute codes.
pub const HSA_SYSTEM_INFO_VERSION_MAJOR: i32 = 0;

pub const HSA_SYSTEM_INFO_VERSION_MINOR: i32 = 1;

pub const HSA_SYSTEM_INFO_TIMESTAMP: i32 = 2;

pub const HSA_SYSTEM_INFO_TIMESTAMP_FREQUENCY: i32 = 3;

pub const HSA_SYSTEM_INFO_SIGNAL_MAX_WAIT: i32 = 4;

pub const HSA_SYSTEM_INFO_ENDIANNESS: i32 = 5;

pub const HSA_SYSTEM_INFO_MACHINE_MODEL: i32 = 6;

pub const HSA_SYSTEM_INFO_EXTENSIONS: i32 = 7;

pub const HSA_ENDIANNESS_LITTLE: u32 = 0;

pub const HSA_MACHINE_MODEL_LARGE: u32 = 1;

/// Opaque agent handle as C sees it (`struct { uint64_t handle; }`).
#[allow(non_camel_case_types)]
#[derive(Debug, Clone, Copy, PartialEq, Eq, Structural)]
pub struct hsa_agent_t {
    pub handle: u64,
}

/// The status a runtime error is reported as.
pub open spec fn status_of(e: RuntimeError) -> u32 {
    match e {
        RuntimeError::NotInitialized => HSA_STATUS_ERROR_NOT_INITIALIZED,
        RuntimeError::RefcountOverflow => HSA_STATUS_ERROR_REFCOUNT_OVERFLOW,
        RuntimeError::InvalidArgument => HSA_STATUS_ERROR_INVALID_ARGUMENT,
        RuntimeError::UnsupportedAttribute => HSA_STATUS_ERROR_INVALID_ARGUMENT,
        RuntimeError::InvalidAgent => HSA_STATUS_ERROR_INVALID_AGENT,
        _ => HSA_STATUS_ERROR,
    }
}

/// Maps a runtime error to its status code.
pub fn map_runtime_error(e: &RuntimeError) -> (r: u32)
    ensures
        r == status_of(*e),
{
    match e {
        RuntimeError::NotInitialized => HSA_STATUS_ERROR_NOT_INITIALIZED,
        RuntimeError::RefcountOverflow => HSA_STATUS_ERROR_REFCOUNT_OVERFLOW,
        RuntimeError::InvalidArgument | RuntimeError::UnsupportedAttribute => HSA_STATUS_ERROR_INVALID_ARGUMENT,
        RuntimeError::InvalidAgent => HSA_STATUS_ERROR_INVALID_AGENT,
        _ => HSA_STATUS_ERROR,
    }
}

/// The agent attribute an attribute code names.
pub open spec fn attr_of(code: i32) -> Option<AgentInfoAttr> {
    if code == HSA_AGENT_INFO_NAME {
        Some(AgentInfoAttr::Name)
    } else if code == HSA_AGENT_INFO_VENDOR_NAME {
        Some(AgentInfoAttr::VendorName)
    } else if code == HSA_AGENT_INFO_FEATURE {
        Some(AgentInfoAttr::Feature)
    } else if code == HSA_AGENT_INFO_DEVICE {
        Some(AgentInfoAttr::Device)
    } else if code == HSA_AGENT_INFO_VERSION_MAJOR {
        Some(AgentInfoAttr::VersionMajor)
    } else if code == HSA_AGENT_INFO_VERSION_MINOR {
        Some(AgentInfoAttr::VersionMinor)
    } else {
        None
    }
}

/// Maps an attribute code to the agent attribute it names.
pub fn map_attr(code: i32) -> (r: Option<AgentInfoAttr>)
    ensures
        r == attr_of(code),
{
    if code == HSA_AGENT_INFO_NAME {
        Some(AgentInfoAttr::Name)
    } else if code == HSA_AGENT_INFO_VENDOR_NAME {
        Some(AgentInfoAttr::VendorName)
    } else if code == HSA_AGENT_INFO_FEATURE {
        Some(AgentInfoAttr::Feature)
    } else if code == HSA_AGENT_INFO_DEVICE {
        Some(AgentInfoAttr::Device)
    } else if code == HSA_AGENT_INFO_VERSION_MAJOR {
        Some(AgentInfoAttr::VersionMajor)
    } else if code == HSA_AGENT_INFO_VERSION_MINOR {
        Some(AgentInfoAttr::VersionMinor)
    } else {
        None
    }
}

/// The device type code of an agent kind.
pub fn device_type(kind: AgentKind) -> (r: u32)
    ensures
        r == (if kind == AgentKind::Cpu { HSA_DEVICE_TYPE_CPU } else { HSA_DEVICE_TYPE_GPU }),
{
    match kind {
        AgentKind::Cpu => HSA_DEVICE_TYPE_CPU,
        AgentKind::Gpu => HSA_DEVICE_TYPE_GPU,
    }
}

/// A 64-byte C string buffer holding the first (at most 63) bytes of `text`
/// and zeros after them.
pub open spec fn c_string64_spec(text: Seq<u8>) -> Seq<u8> {
    let n: int = if text.len() < 63 { text.len() as int } else { 63 };
    Seq::new(64, |i: int| if i < n { text[i] } else { 0u8 })
}

/// Fills a 64-byte C string buffer from `text`, cut at 63 bytes so the
/// terminating zero always fits.
pub fn c_string64(text: &[u8]) -> (r: Vec<u8>)
    ensures
        r@ == c_string64_spec(text@),
{
    let n: usize = if text.len() < 63 { text.len() } else { 63 };
    let mut out: Vec<u8> = Vec::new();
    let mut i: usize = 0;
    while i < 64
        invariant
            i <= 64,
            n <= text@.len(),
            n == (if text@.len() < 63 { text@.len() as int } else { 63 }),
            out@.len() == i,
            forall|j: int| 0 <= j < i ==> out@[j] == (if j < n { text@[j] } else { 0u8 }),
        decreases 64 - i,
    {
        if i < n {
            out.push(text[i]);
        } else {
            out.push(0u8);
        }
        i = i + 1;
    }
    assert(out@ =~= c_string64_spec(text@));
    out
}

/// The bytes an agent answer is written as: names as 64-byte C strings,
/// the feature mask and device type as 32-bit values, versions as 16-bit
/// values, all little-endian.
pub open spec fn agent_answer_ok(v: AgentInfoValue, b: Seq<u8>) -> bool {
    match v {
        AgentInfoValue::Name(s) => b == c_string64_spec(vstd::utf8::encode_utf8(s@)),
        AgentInfoValue::VendorName(s) => b == c_string64_spec(vstd::utf8::encode_utf8(s@)),
        AgentInfoValue::Feature(m) => b.len() == 4 && le32(b, 0) == m,
        AgentInfoValue::Device(k) => b.len() == 4 && le32(b, 0) == (if k == AgentKind::Cpu {
            HSA_DEVICE_TYPE_CPU
        } else {
            HSA_DEVICE_TYPE_GPU
        }),
        AgentInfoValue::U16(x) => b.len() == 2 && le16(b, 0) == x,
        AgentInfoValue::U32(x) => b.len() == 4 && le32(b, 0) == x,
    }
}

/// Encodes an agent answer as the bytes written to the caller's buffer.
pub fn agent_answer_bytes(v: &AgentInfoValue) -> (r: Vec<u8>)
    ensures
        agent_answer_ok(*v, r@),
{
    match v {
        AgentInfoValue::Name(s) => {
            let t = s.as_str();
            let b = t.as_bytes();
            assert(b@ == vstd::utf8::encode_utf8(s@));
            c_string64(b)
        },
        AgentInfoValue::VendorName(s) => {
            let t = s.as_str();
            let b = t.as_bytes();
            assert(b@ == vstd::utf8::encode_utf8(s@));
            c_string64(b)
        },
        AgentInfoValue::Feature(m) => {
            let mut out: Vec<u8> = Vec::new();
            push_le_u32(&mut out, *m);
            proof { lemma_le32_of_bytes(*m); }
            assert(out@ =~= le_bytes(*m as int, 4));
            out
        },
        AgentInfoValue::Device(k) => {
            let mut out: Vec<u8> = Vec::new();
            let d = device_type(*k);
            push_le_u32(&mut out, d);
            proof { lemma_le32_of_bytes(d); }
            assert(out@ =~= le_bytes(d as int, 4));
            out
        },
        AgentInfoValue::U16(x) => {
            let mut out: Vec<u8> = Vec::new();
            push_le_u16(&mut out, *x);
            proof { lemma_le16_of_bytes(*x); }
            assert(out@ =~= le_bytes(*x as int, 2));
            out
        },
        AgentInfoValue::U32(x) => {
            let mut out: Vec<u8> = Vec::new();
            push_le_u32(&mut out, *x);
            proof { lemma_le32_of_bytes(*x); }
            assert(out@ =~= le_bytes(*x as int, 4));
            out
        },
    }
}

/// What a system attribute answers, as the bytes written to the caller's
/// buffer (the timestamp is the caller's clock reading `now_ns`); `None`
/// for an attribute the adapter does not support.
pub open spec fn system_answer_ok(code: i32, now_ns: u64, r: Option<Vec<u8>>) -> bool {
    if code == HSA_SYSTEM_INFO_VERSION_MAJOR {
        r matches Some(b) && b@.len() == 2 && le16(b@, 0) == 1
    } else if code == HSA_SYSTEM_INFO_VERSION_MINOR {
        r matches Some(b) && b@.len() == 2 && le16(b@, 0) == 2
    } else if code == HSA_SYSTEM_INFO_TIMESTAMP {
        r matches Some(b) && b@.len() == 8 && le64(b@, 0) == now_ns
    } else if code == HSA_SYSTEM_INFO_TIMESTAMP_FREQUENCY {
        r matches Some(b) && b@.len() == 8 && le64(b@, 0) == 1_000_000_000
    } else if code == HSA_SYSTEM_INFO_SIGNAL_MAX_WAIT {
        r matches Some(b) && b@.len() == 8 && le64(b@, 0) == u32::MAX
    } else if code == HSA_SYSTEM_INFO_ENDIANNESS {
        r matches Some(b) && b@.len() == 4 && le32(b@, 0) == HSA_ENDIANNESS_LITTLE
    } else if code == HSA_SYSTEM_INFO_MACHINE_MODEL {
        r matches Some(b) && b@.len() == 4 && le32(b@, 0) == HSA_MACHINE_MODEL_LARGE
    } else if code == HSA_SYSTEM_INFO_EXTENSIONS {
        r matches Some(b) && b@ == crate::bytes::zeros(128)
    } else {
        r is None
    }
}

/// Answers a system attribute for a little-endian, 64-bit host: versions
/// 1.2, a nanosecond software clock, a maximum wait of `u32::MAX`, and no
/// extensions.
pub fn system_answer_bytes(code: i32, now_ns: u64) -> (r: Option<Vec<u8>>)
    ensures
        system_answer_ok(code, now_ns, r),
{
    let mut out: Vec<u8> = Vec::new();
    if code == HSA_SYSTEM_INFO_VERSION_MAJOR {
        push_le_u16(&mut out, 1);
        proof { lemma_le16_of_bytes(1); }
        assert(out@ =~= le_bytes(1, 2));
    } else if code == HSA_SYSTEM_INFO_VERSION_MINOR {
        push_le_u16(&mut out, 2);
        proof { lemma_le16_of_bytes(2); }
        assert(out@ =~= le_bytes(2, 2));
    } else if code == HSA_SYSTEM_INFO_TIMESTAMP {
        push_le_u64(&mut out, now_ns);
        proof { lemma_le64_of_bytes(now_ns); }
        assert(out@ =~= le_bytes(now_ns as int, 8));
    } else if code == HSA_SYSTEM_INFO_TIMESTAMP_FREQUENCY {
        push_le_u64(&mut out, 1_000_000_000);
        proof { lemma_le64_of_bytes(1_000_000_000); }
        assert(out@ =~= le_bytes(1_000_000_000, 8));
    } else if code == HSA_SYSTEM_INFO_SIGNAL_MAX_WAIT {
        push_le_u64(&mut out, 0xFFFF_FFFF);
        proof { lemma_le64_of_bytes(0xFFFF_FFFF); }
        assert(out@ =~= le_bytes(0xFFFF_FFFF, 8));
    } else if code == HSA_SYSTEM_INFO_ENDIANNESS {
        push_le_u32(&mut out, HSA_ENDIANNESS_LITTLE);
        proof { lemma_le32_of_bytes(HSA_ENDIANNESS_LITTLE); }
        assert(out@ =~= le_bytes(HSA_ENDIANNESS_LITTLE as int, 4));
    } else if code == HSA_SYSTEM_INFO_MACHINE_MODEL {
        push_le_u32(&mut out, HSA_MACHINE_MODEL_LARGE);
        proof { lemma_le32_of_bytes(HSA_MACHINE_MODEL_LARGE); }
        assert(out@ =~= le_bytes(HSA_MACHINE_MODEL_LARGE as int, 4));
    } else if code == HSA_SYSTEM_INFO_EXTENSIONS {
        push_zeros(&mut out, 128);
        assert(out@ =~= crate::bytes::zeros(128));
    } else {
        return None;
    }
    Some(out)
}

} // verus!
