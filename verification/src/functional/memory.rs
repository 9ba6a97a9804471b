//! Host-backed linear memory of functional runs. Functional "pointers" are
//! byte offsets into an arena.
use super::error::FunctionalError;
use super::ir::TypeId;
use crate::bytes::{le32, le64, le_bytes, le_u32_at, le_u64_at, push_le_u32, push_le_u64, push_zeros, zeros};
use vstd::prelude::*;

verus! {

/// Byte width of a scalar type.
pub open spec fn type_size(ty: TypeId) -> nat {
    match ty {
        TypeId::I32 => 4,
        TypeId::U32 => 4,
        TypeId::U64 => 8,
    }
}

/// A value as the type keeps it: 32-bit types are truncated (and the signed
/// one sign-extended), 64-bit values pass unchanged.
pub open spec fn narrow_spec(v: i64, ty: TypeId) -> i64 {
    match ty {
        TypeId::I32 => (v as i32) as i64,
        TypeId::U32 => (v as u32) as i64,
        TypeId::U64 => v,
    }
}

/// The value a typed load reads at byte offset `off` of `b`.
pub open spec fn decode_at(b: Seq<u8>, off: int, ty: TypeId) -> i64 {
    match ty {
        TypeId::I32 => ((le32(b, off) as u32) as i32) as i64,
        TypeId::U32 => (le32(b, off) as u32) as i64,
        TypeId::U64 => (le64(b, off) as u64) as i64,
    }
}

/// The bytes a typed store writes for `v`.
pub open spec fn encode(v: i64, ty: TypeId) -> Seq<u8> {
    match ty {
        TypeId::I32 => le_bytes(((v as i32) as u32) as int, 4),
        TypeId::U32 => le_bytes((v as u32) as int, 4),
        TypeId::U64 => le_bytes((v as u64) as int, 8),
    }
}

/// A typed access of `ty` at `addr` lies inside `len` bytes.
pub open spec fn access_in_bounds(len: nat, addr: u64, ty: TypeId) -> bool {
    addr + type_size(ty) <= len
}

/// What a typed load returns.
pub open spec fn load_spec(b: Seq<u8>, addr: u64, ty: TypeId) -> Option<i64> {
    if access_in_bounds(b.len(), addr, ty) {
        Some(decode_at(b, addr as int, ty))
    } else {
        None
    }
}

/// The bytes after a typed store that lies inside the arena.
pub open spec fn store_spec(b: Seq<u8>, addr: u64, ty: TypeId, v: i64) -> Seq<u8> {
    b.subrange(0, addr as int) + encode(v, ty) + b.subrange(addr + type_size(ty), b.len() as int)
}

/// The word stored at chunk `k` by `fill_i32_ramp(start)`.
pub open spec fn ramp_word(start: i32, k: int) -> int {
    ((start as u32) as int + k) % 0x1_0000_0000
}

/// Reading a value back after storing it gives the value as its type keeps it.
pub proof fn lemma_load_after_store(b: Seq<u8>, addr: u64, ty: TypeId, v: i64)
    requires
        access_in_bounds(b.len(), addr, ty),
    ensures
        store_spec(b, addr, ty, v).len() == b.len(),
        load_spec(store_spec(b, addr, ty, v), addr, ty) == Some(narrow_spec(v, ty)),
{
    let s = store_spec(b, addr, ty, v);
    let a = addr as int;
    match ty {
        TypeId::I32 => {
            let w = (v as i32) as u32;
            crate::bytes::lemma_le32_of_bytes(w);
            assert(le32(s, a) == le32(le_bytes(w as int, 4), 0));
            let x = v as i32;
            assert(((x as u32) as i32) == x) by (bit_vector);
        },
        TypeId::U32 => {
            let w = v as u32;
            crate::bytes::lemma_le32_of_bytes(w);
            assert(le32(s, a) == le32(le_bytes(w as int, 4), 0));
        },
        TypeId::U64 => {
            let w = v as u64;
            crate::bytes::lemma_le64_of_bytes(w);
            assert(le64(s, a) == le64(le_bytes(w as int, 8), 0));
            assert(((v as u64) as i64) == v) by (bit_vector);
        },
    }
}

/// A store changes only the bytes it writes.
pub proof fn lemma_store_frame(b: Seq<u8>, addr: u64, ty: TypeId, v: i64, i: int)
    requires
        access_in_bounds(b.len(), addr, ty),
        0 <= i < b.len(),
        i < addr || addr + type_size(ty) <= i,
    ensures
        store_spec(b, addr, ty, v)[i] == b[i],
{
}

/// Byte width of a scalar type.
pub fn ty_size(ty: TypeId) -> (r: usize)
    ensures
        r == type_size(ty),
{
    match ty {
        TypeId::I32 | TypeId::U32 => 4,
        TypeId::U64 => 8,
    }
}

/// The value a typed load reads at `off` of `b`.
fn decode(b: &[u8], off: usize, ty: TypeId) -> (r: i64)
    requires
        off + type_size(ty) <= b@.len(),
    ensures
        r == decode_at(b@, off as int, ty),
{
    match ty {
        TypeId::I32 => (le_u32_at(b, off) as i32) as i64,
        TypeId::U32 => le_u32_at(b, off) as i64,
        TypeId::U64 => le_u64_at(b, off) as i64,
    }
}

/// The bytes of `value` as a store of `ty` writes them.
fn encode_value(value: i64, ty: TypeId) -> (r: Vec<u8>)
    ensures
        r@ == encode(value, ty),
{
    let mut out: Vec<u8> = Vec::new();
    match ty {
        TypeId::I32 => push_le_u32(&mut out, (value as i32) as u32),
        TypeId::U32 => push_le_u32(&mut out, value as u32),
        TypeId::U64 => push_le_u64(&mut out, value as u64),
    }
    assert(out@ =~= encode(value, ty));
    out
}

/// Overwrites `bytes[off..off + data.len()]` with `data`.
fn write_at(bytes: &mut Vec<u8>, off: usize, data: &Vec<u8>)
    requires
        off + data@.len() <= old(bytes)@.len(),
    ensures
        final(bytes)@ == old(bytes)@.subrange(0, off as int) + data@ + old(bytes)@.subrange(
            off + data@.len(),
            old(bytes)@.len() as int,
        ),
{
    let ghost b0 = bytes@;
    let _n = bytes.len();
    let mut i: usize = 0;
    while i < data.len()
        invariant
            i <= data@.len(),
            b0.len() <= usize::MAX,
            off + data@.len() <= b0.len(),
            bytes@.len() == b0.len(),
            forall|j: int| 0 <= j < off ==> bytes@[j] == b0[j],
            forall|j: int| 0 <= j < i ==> bytes@[off + j] == data@[j],
            forall|j: int| off + i <= j < b0.len() ==> bytes@[j] == b0[j],
        decreases data@.len() - i,
    {
        bytes.set(off + i, data[i]);
        i = i + 1;
    }
    assert(bytes@ =~= b0.subrange(0, off as int) + data@ + b0.subrange(off + data@.len(), b0.len() as int));
}

/// The byte offset of a typed access at `addr`, or the bounds error.
fn checked_range(addr: u64, ty: TypeId, len: usize) -> (r: Result<usize, FunctionalError>)
    ensures
        r is Ok <==> access_in_bounds(len as nat, addr, ty),
        r matches Ok(o) ==> o == addr,
        r matches Err(e) ==> e == (FunctionalError::Bounds { addr, size: type_size(ty) as usize, arena_len: len }),
{
    let size = ty_size(ty);
    if addr > len as u64 {
        return Err(FunctionalError::Bounds { addr, size, arena_len: len });
    }
    let start = addr as usize;
    if size > len || start > len - size {
        return Err(FunctionalError::Bounds { addr, size, arena_len: len });
    }
    Ok(start)
}

/// Linear memory addressed by byte offset.
#[derive(Debug, Clone)]
pub struct GlobalArena {
    bytes: Vec<u8>,
}

impl View for GlobalArena {
    type V = Seq<u8>;

    closed spec fn view(&self) -> Seq<u8> {
        self.bytes@
    }
}

impl GlobalArena {
    /// A zero-filled arena of `len` bytes.
    pub fn new(len: usize) -> (r: Self)
        ensures
            r@ == zeros(len as nat),
    {
        let mut bytes: Vec<u8> = Vec::new();
        push_zeros(&mut bytes, len);
        assert(bytes@ =~= zeros(len as nat));
        GlobalArena { bytes }
    }

    /// An arena holding exactly `bytes`.
    pub fn from_bytes(bytes: Vec<u8>) -> (r: Self)
        ensures
            r@ == bytes@,
    {
        GlobalArena { bytes }
    }

    pub fn len(&self) -> (r: usize)
        ensures
            r == self@.len(),
    {
        self.bytes.len()
    }

    pub fn is_empty(&self) -> (r: bool)
        ensures
            r == (self@.len() == 0),
    {
        self.bytes.len() == 0
    }

    pub fn as_slice(&self) -> (r: &[u8])
        ensures
            r@ == self@,
    {
        self.bytes.as_slice()
    }

    /// Fills each whole 4-byte chunk `k` with the little-endian bytes of the
    /// 32-bit integer `start + k` (wrapping); a trailing partial chunk keeps
    /// its bytes.
    pub fn fill_i32_ramp(&mut self, start: i32)
        ensures
            final(self)@.len() == old(self)@.len(),
            forall|k: int|
                0 <= k < old(self)@.len() / 4 ==> #[trigger] final(self)@.subrange(4 * k, 4 * k + 4) == le_bytes(
                    ramp_word(start, k),
                    4,
                ),
            forall|j: int|
                4 * (old(self)@.len() / 4) <= j < old(self)@.len() ==> #[trigger] final(self)@[j] == old(self)@[j],
    {
        let n = self.bytes.len() / 4;
        let ghost b0 = self.bytes@;
        let mut u: u32 = start as u32;
        let mut k: usize = 0;
        while k < n
            invariant
                n == b0.len() / 4,
                b0.len() <= usize::MAX,
                k <= n,
                self.bytes@.len() == b0.len(),
                u == ramp_word(start, k as int),
                forall|m: int| 0 <= m < k ==> #[trigger] self.bytes@.subrange(4 * m, 4 * m + 4) == le_bytes(
                    ramp_word(start, m),
                    4,
                ),
                forall|j: int| 4 * k <= j < b0.len() ==> #[trigger] self.bytes@[j] == b0[j],
            decreases n - k,
        {
            let mut w: Vec<u8> = Vec::new();
            push_le_u32(&mut w, u);
            assert(w@ =~= le_bytes(u as int, 4));
            let ghost before = self.bytes@;
            write_at(&mut self.bytes, 4 * k, &w);
            proof {
                assert forall|m: int| 0 <= m < k + 1 implies #[trigger] self.bytes@.subrange(4 * m, 4 * m + 4)
                    == le_bytes(ramp_word(start, m), 4) by {
                    if m < k {
                        assert(self.bytes@.subrange(4 * m, 4 * m + 4) =~= before.subrange(4 * m, 4 * m + 4));
                    } else {
                        assert(self.bytes@.subrange(4 * m, 4 * m + 4) =~= w@);
                    }
                }
            }
            u = if u == u32::MAX { 0 } else { u + 1 };
            k = k + 1;
        }
    }

    /// The arena as little-endian 32-bit signed integers.
    pub fn read_i32_slice(&self) -> (r: Result<Vec<i32>, FunctionalError>)
        ensures
            r is Ok <==> self@.len() % 4 == 0,
            r is Err ==> r->Err_0 is Validation,
            r matches Ok(v) ==> v@.len() == self@.len() / 4 && forall|k: int|
                0 <= k < v@.len() ==> #[trigger] v@[k] == ((le32(self@, 4 * k) as u32) as i32),
    {
        if self.bytes.len() % 4 != 0 {
            return Err(FunctionalError::validation("arena length not multiple of 4"));
        }
        let n = self.bytes.len() / 4;
        let mut out: Vec<i32> = Vec::new();
        let mut k: usize = 0;
        while k < n
            invariant
                n == self@.len() / 4,
                self@.len() <= usize::MAX,
                k <= n,
                out@.len() == k,
                forall|m: int| 0 <= m < k ==> #[trigger] out@[m] == ((le32(self@, 4 * m) as u32) as i32),
            decreases n - k,
        {
            out.push(le_u32_at(self.bytes.as_slice(), 4 * k) as i32);
            k = k + 1;
        }
        Ok(out)
    }

    /// Typed little-endian load at `addr`; fails closed outside the arena.
    pub fn load(&self, addr: u64, ty: TypeId) -> (r: Result<i64, FunctionalError>)
        ensures
            match load_spec(self@, addr, ty) {
                Some(v) => r == Ok::<i64, FunctionalError>(v),
                None => r == Err::<i64, FunctionalError>(
                    FunctionalError::Bounds { addr, size: type_size(ty) as usize, arena_len: self@.len() as usize },
                ),
            },
    {
        let start = checked_range(addr, ty, self.bytes.len())?;
        Ok(decode(self.bytes.as_slice(), start, ty))
    }

    /// Typed little-endian store at `addr`; fails closed, changing nothing,
    /// outside the arena.
    pub fn store(&mut self, addr: u64, ty: TypeId, value: i64) -> (r: Result<(), FunctionalError>)
        ensures
            r is Ok <==> access_in_bounds(old(self)@.len(), addr, ty),
            r is Ok ==> final(self)@ == store_spec(old(self)@, addr, ty, value),
            r is Err ==> final(self)@ == old(self)@ && r == Err::<(), FunctionalError>(
                FunctionalError::Bounds { addr, size: type_size(ty) as usize, arena_len: old(self)@.len() as usize },
            ),
    {
        let start = checked_range(addr, ty, self.bytes.len())?;
        let data = encode_value(value, ty);
        write_at(&mut self.bytes, start, &data);
        Ok(())
    }
}

/// Typed little-endian load from the kernel-argument block.
pub fn kernarg_load(kernarg: &[u8], offset: u32, ty: TypeId) -> (r: Result<i64, FunctionalError>)
    ensures
        match load_spec(kernarg@, offset as u64, ty) {
            Some(v) => r == Ok::<i64, FunctionalError>(v),
            None => r == Err::<i64, FunctionalError>(
                FunctionalError::Bounds {
                    addr: offset as u64,
                    size: type_size(ty) as usize,
                    arena_len: kernarg@.len() as usize,
                },
            ),
        },
{
    let start = checked_range(offset as u64, ty, kernarg.len())?;
    Ok(decode(kernarg, start, ty))
}

} // verus!
