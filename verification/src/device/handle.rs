//! Generation-safe packed handles.
//!
//! A handle packs `kind | generation | index` so that stale, forged and
//! cross-kind values fail deterministically after a table slot is recycled.
use crate::text::{cat, cat_string, dec_chars, dec_u64, hex_chars, hex_u64, owned};
use vstd::prelude::*;

verus! {

/// Discriminator stored in the high byte of a packed handle.
#[derive(Debug, Clone, Copy, PartialEq, Eq, Hash, Structural)]
pub enum HandleKind {
    Agent,
    Region,
    MemoryPool,
    Signal,
    Queue,
}

/// The byte that encodes a kind.
pub open spec fn kind_code(k: HandleKind) -> u8 {
    match k {
        HandleKind::Agent => 1,
        HandleKind::Region => 2,
        HandleKind::MemoryPool => 3,
        HandleKind::Signal => 4,
        HandleKind::Queue => 5,
    }
}

/// The kind a byte encodes, if any.
pub open spec fn kind_of_code(v: u8) -> Option<HandleKind> {
    if v == 1 {
        Some(HandleKind::Agent)
    } else if v == 2 {
        Some(HandleKind::Region)
    } else if v == 3 {
        Some(HandleKind::MemoryPool)
    } else if v == 4 {
        Some(HandleKind::Signal)
    } else if v == 5 {
        Some(HandleKind::Queue)
    } else {
        None
    }
}

impl HandleKind {
    pub fn code(self) -> (r: u8)
        ensures
            r == kind_code(self),
    {
        match self {
            HandleKind::Agent => 1,
            HandleKind::Region => 2,
            HandleKind::MemoryPool => 3,
            HandleKind::Signal => 4,
            HandleKind::Queue => 5,
        }
    }

    pub fn from_u8(value: u8) -> (r: Option<Self>)
        ensures
            r == kind_of_code(value),
    {
        match value {
            1 => Some(HandleKind::Agent),
            2 => Some(HandleKind::Region),
            3 => Some(HandleKind::MemoryPool),
            4 => Some(HandleKind::Signal),
            5 => Some(HandleKind::Queue),
            _ => None,
        }
    }

    pub fn as_str(self) -> (s: &'static str)
        ensures
            s@ == match self {
                HandleKind::Agent => "agent"@,
                HandleKind::Region => "region"@,
                HandleKind::MemoryPool => "memory_pool"@,
                HandleKind::Signal => "signal"@,
                HandleKind::Queue => "queue"@,
            },
    {
        match self {
            HandleKind::Agent => "agent",
            HandleKind::Region => "region",
            HandleKind::MemoryPool => "memory_pool",
            HandleKind::Signal => "signal",
            HandleKind::Queue => "queue",
        }
    }
}

/// Opaque 64-bit handle: `[kind:8][generation:24][index:32]`.
#[derive(Debug, Clone, Copy, PartialEq, Eq, Hash, Structural)]
pub struct PackedHandle(pub u64);

/// The raw value of a packed handle.
pub open spec fn pack_spec(kind: HandleKind, generation: u32, index: u32) -> u64 {
    (kind_code(kind) * 0x100_0000_0000_0000 + (generation % 0x100_0000) * 0x1_0000_0000 + index) as u64
}

impl PackedHandle {
    /// The invalid handle (raw value zero).
    pub fn invalid() -> (h: Self)
        ensures
            h.0 == 0,
    {
        PackedHandle(0)
    }

    pub fn pack(kind: HandleKind, generation: u32, index: u32) -> (h: Self)
        ensures
            h.0 == pack_spec(kind, generation, index),
    {
        let g = (generation % 0x100_0000) as u64;
        let v: u64 = (kind.code() as u64) * 0x100_0000_0000_0000 + g * 0x1_0000_0000 + index as u64;
        PackedHandle(v)
    }

    pub fn from_raw(raw: u64) -> (h: Self)
        ensures
            h.0 == raw,
    {
        PackedHandle(raw)
    }

    pub fn raw(self) -> (r: u64)
        ensures
            r == self.0,
    {
        self.0
    }

    pub fn is_invalid(self) -> (r: bool)
        ensures
            r == (self.0 == 0),
    {
        self.0 == 0
    }

    /// Kind stored in the high byte.
    pub fn kind(self) -> (r: Option<HandleKind>)
        ensures
            r == kind_of_code((self.0 / 0x100_0000_0000_0000) as u8),
    {
        HandleKind::from_u8((self.0 / 0x100_0000_0000_0000) as u8)
    }

    /// The 24-bit generation.
    pub fn generation(self) -> (r: u32)
        ensures
            r == (self.0 / 0x1_0000_0000) % 0x100_0000,
    {
        ((self.0 / 0x1_0000_0000) % 0x100_0000) as u32
    }

    /// The 32-bit table index.
    pub fn index(self) -> (r: u32)
        ensures
            r == self.0 % 0x1_0000_0000,
    {
        (self.0 % 0x1_0000_0000) as u32
    }
}

/// The name of a kind in diagnostics.
pub open spec fn kind_text(k: HandleKind) -> Seq<char> {
    match k {
        HandleKind::Agent => "agent"@,
        HandleKind::Region => "region"@,
        HandleKind::MemoryPool => "memory_pool"@,
        HandleKind::Signal => "signal"@,
        HandleKind::Queue => "queue"@,
    }
}

/// The diagnostic text of a handle: its kind, generation, index and raw
/// value, or only the raw value when the kind byte is unknown.
pub open spec fn handle_text(h: PackedHandle) -> Seq<char> {
    match kind_of_code((h.0 / 0x100_0000_0000_0000) as u8) {
        Some(k) => "PackedHandle { kind: "@ + kind_text(k) + ", gen: "@ + dec_chars(((h.0 / 0x1_0000_0000) % 0x100_0000) as nat)
            + ", index: "@ + dec_chars((h.0 % 0x1_0000_0000) as nat) + ", raw: 0x"@ + hex_chars(h.0 as nat) + " }"@,
        None => "PackedHandle { invalid_or_unknown: 0x"@ + hex_chars(h.0 as nat) + " }"@,
    }
}

impl PackedHandle {
    /// The diagnostic text of the handle.
    pub fn describe(self) -> (s: String)
        ensures
            s@ == handle_text(self),
    {
        match self.kind() {
            Some(k) => {
                let a = cat(owned("PackedHandle { kind: "), k.as_str());
                let a = cat_string(cat(a, ", gen: "), dec_u64(self.generation() as u64));
                let a = cat_string(cat(a, ", index: "), dec_u64(self.index() as u64));
                let a = cat_string(cat(a, ", raw: 0x"), hex_u64(self.0));
                cat(a, " }")
            },
            None => cat(cat_string(owned("PackedHandle { invalid_or_unknown: 0x"), hex_u64(self.0)), " }"),
        }
    }
}

/// Unpacking a packed handle gives back its kind, its generation reduced to
/// 24 bits, and its index; a packed handle is never the invalid handle.
pub proof fn lemma_pack_round_trip(kind: HandleKind, generation: u32, index: u32)
    ensures
        kind_of_code((pack_spec(kind, generation, index) / 0x100_0000_0000_0000) as u8) == Some(kind),
        (pack_spec(kind, generation, index) / 0x1_0000_0000) % 0x100_0000 == generation % 0x100_0000,
        pack_spec(kind, generation, index) % 0x1_0000_0000 == index,
        pack_spec(kind, generation, index) != 0,
{
    let k = kind_code(kind) as int;
    let g = (generation % 0x100_0000) as int;
    let i = index as int;
    let v = k * 0x100_0000_0000_0000 + g * 0x1_0000_0000 + i;
    assert(v / 0x100_0000_0000_0000 == k && (v / 0x1_0000_0000) % 0x100_0000 == g && v % 0x1_0000_0000 == i)
        by (nonlinear_arith)
        requires
            1 <= k <= 5,
            0 <= g < 0x100_0000,
            0 <= i < 0x1_0000_0000,
            v == k * 0x100_0000_0000_0000 + g * 0x1_0000_0000 + i,
    ;
}

/// Handles packed from different (kind, generation, index) triples differ:
/// a recycled slot with a bumped generation never matches an old handle.
pub proof fn lemma_pack_injective(k1: HandleKind, g1: u32, i1: u32, k2: HandleKind, g2: u32, i2: u32)
    requires
        pack_spec(k1, g1, i1) == pack_spec(k2, g2, i2),
    ensures
        k1 == k2,
        g1 % 0x100_0000 == g2 % 0x100_0000,
        i1 == i2,
{
    lemma_pack_round_trip(k1, g1, i1);
    lemma_pack_round_trip(k2, g2, i2);
}

} // verus!
