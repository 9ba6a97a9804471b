//! Global memory seen by the interpreter's SMEM and GLOBAL instructions.
use super::error::{IsaError, IsaErrorKind};
use crate::bytes::{le32, le64, le_u32_at, le_u64_at};
use crate::text::{cat, cat_string, dec_u64, hex_u64, owned};
use vstd::prelude::*;

verus! {

/// A memory the interpreter loads from and stores to.
pub trait IsaMemory: Sized {
    /// The 32-bit little-endian value at `addr`, if `addr..addr+4` is mapped.
    spec fn load32(&self, addr: u64) -> Option<u32>;

    /// The 64-bit little-endian value at `addr`, if `addr..addr+8` is mapped.
    spec fn load64(&self, addr: u64) -> Option<u64>;

    fn load_u32(&self, addr: u64) -> (r: Result<u32, IsaError>)
        ensures
            match self.load32(addr) {
                Some(v) => r == Ok::<u32, IsaError>(v),
                None => r is Err,
            },
    ;

    fn store_u32(&mut self, addr: u64, value: u32) -> (r: Result<(), IsaError>)
        ensures
            r is Ok <==> old(self).load32(addr) is Some,
            r is Ok ==> final(self).load32(addr) == Some(value),
            r is Ok ==> forall|a: u64|
                a + 4 <= addr || addr + 4 <= a ==> #[trigger] final(self).load32(a) == old(self).load32(a),
            forall|a: u64| (#[trigger] final(self).load32(a) is Some) == (old(self).load32(a) is Some),
            r is Err ==> *final(self) == *old(self),
    ;

    fn load_u64(&self, addr: u64) -> (r: Result<u64, IsaError>)
        ensures
            match self.load64(addr) {
                Some(v) => r == Ok::<u64, IsaError>(v),
                None => r is Err,
            },
    ;

    fn store_u64(&mut self, addr: u64, value: u64) -> (r: Result<(), IsaError>)
        ensures
            r is Ok <==> old(self).load64(addr) is Some,
            r is Ok ==> final(self).load64(addr) == Some(value),
            r is Err ==> *final(self) == *old(self),
    ;
}

/// A byte arena mapped at `base` used as global memory.
#[derive(Debug, Clone)]
pub struct GlobalArena {
    pub base: u64,
    pub bytes: Vec<u8>,
}

impl GlobalArena {
    /// `addr..addr+len` lies inside the arena.
    pub open spec fn covers(&self, addr: u64, len: nat) -> bool {
        self.base <= addr && addr + len <= self.base + self.bytes@.len() && addr + len <= u64::MAX
    }

    /// A zero-filled arena of `size` bytes at `base`.
    pub fn new(base: u64, size: usize) -> (r: Self)
        ensures
            r.base == base,
            r.bytes@ == crate::bytes::zeros(size as nat),
    {
        let mut bytes: Vec<u8> = Vec::new();
        crate::bytes::push_zeros(&mut bytes, size);
        assert(bytes@ =~= crate::bytes::zeros(size as nat));
        GlobalArena { base, bytes }
    }

    pub fn contains(&self, addr: u64, len: usize) -> (r: bool)
        ensures
            r == self.covers(addr, len as nat),
    {
        let end = addr as u128 + len as u128;
        addr >= self.base && end <= u64::MAX as u128 && end <= self.base as u128 + self.bytes.len() as u128
    }

    fn offset(&self, addr: u64, len: usize) -> (r: Result<usize, IsaError>)
        ensures
            r is Ok <==> self.covers(addr, len as nat),
            r matches Ok(o) ==> o == addr - self.base && o + len <= self.bytes@.len(),
            r matches Err(e) ==> e.kind == IsaErrorKind::Trap,
    {
        if !self.contains(addr, len) {
            let m = cat(owned("SoftGPU global OOB addr=0x"), hex_u64(addr).as_str());
            let m = cat_string(cat(m, " len="), dec_u64(len as u64));
            let m = cat_string(cat(m, " base=0x"), hex_u64(self.base));
            let m = cat_string(cat(m, " size="), dec_u64(self.bytes.len() as u64));
            return Err(
                IsaError::new(IsaErrorKind::Trap, m.as_str()).with_remediation(
                    "ensure kernarg/buffer pointers stay inside the arena",
                ),
            );
        }
        let blen = self.bytes.len();
        assert(addr - self.base <= blen);
        Ok((addr - self.base) as usize)
    }

    /// Copy `data` into the arena at `addr`.
    pub fn write_bytes(&mut self, addr: u64, data: &[u8]) -> (r: Result<(), IsaError>)
        ensures
            r is Ok <==> old(self).covers(addr, data@.len()),
            final(self).base == old(self).base,
            r is Ok ==> final(self).bytes@ == old(self).bytes@.subrange(0, addr - old(self).base) + data@
                + old(self).bytes@.subrange(addr - old(self).base + data@.len(), old(self).bytes@.len() as int),
            r is Err ==> final(self).bytes@ == old(self).bytes@,
    {
        let off = self.offset(addr, data.len())?;
        let _n = self.bytes.len();
        let ghost b0 = self.bytes@;
        let mut i: usize = 0;
        while i < data.len()
            invariant
                i <= data@.len(),
                self.base == old(self).base,
                off + data@.len() <= b0.len(),
                b0.len() <= usize::MAX,
                self.bytes@.len() == b0.len(),
                forall|j: int| 0 <= j < off ==> self.bytes@[j] == b0[j],
                forall|j: int| off + data@.len() <= j < b0.len() ==> self.bytes@[j] == b0[j],
                forall|j: int| 0 <= j < i ==> self.bytes@[off + j] == data@[j],
                forall|j: int| off + i <= j < b0.len() ==> self.bytes@[j] == b0[j],
            decreases data@.len() - i,
        {
            self.bytes.set(off + i, data[i]);
            i = i + 1;
        }
        assert(self.bytes@ =~= b0.subrange(0, off as int) + data@ + b0.subrange(off + data@.len(), b0.len() as int));
        Ok(())
    }

    /// Copy arena bytes at `addr` into `out`.
    pub fn read_bytes(&self, addr: u64, out: &mut [u8]) -> (r: Result<(), IsaError>)
        ensures
            r is Ok <==> self.covers(addr, old(out)@.len()),
            r is Ok ==> final(out)@ == self.bytes@.subrange(addr - self.base, addr - self.base + old(out)@.len()),
            r is Err ==> final(out)@ == old(out)@,
    {
        let off = self.offset(addr, out.len())?;
        let _m = self.bytes.len();
        let n = out.len();
        let mut i: usize = 0;
        while i < n
            invariant
                i <= n,
                n == out@.len(),
                off + n <= self.bytes@.len(),
                self.bytes@.len() <= usize::MAX,
                forall|j: int| 0 <= j < i ==> out@[j] == self.bytes@[off + j],
            decreases n - i,
        {
            out[i] = self.bytes[off + i];
            i = i + 1;
        }
        assert(out@ =~= self.bytes@.subrange(off as int, off + n));
        Ok(())
    }
}

impl IsaMemory for GlobalArena {
    open spec fn load32(&self, addr: u64) -> Option<u32> {
        if self.covers(addr, 4) {
            Some(le32(self.bytes@, addr - self.base) as u32)
        } else {
            None
        }
    }

    open spec fn load64(&self, addr: u64) -> Option<u64> {
        if self.covers(addr, 8) {
            Some(le64(self.bytes@, addr - self.base) as u64)
        } else {
            None
        }
    }

    fn load_u32(&self, addr: u64) -> (r: Result<u32, IsaError>) {
        let off = self.offset(addr, 4)?;
        Ok(le_u32_at(self.bytes.as_slice(), off))
    }

    fn store_u32(&mut self, addr: u64, value: u32) -> (r: Result<(), IsaError>) {
        let off = self.offset(addr, 4)?;
        let _n = self.bytes.len();
        assert(off + 4 <= self.bytes@.len());
        let b = super::word::word_to_le_bytes(value);
        let ghost b0 = self.bytes@;
        self.bytes.set(off, b[0]);
        self.bytes.set(off + 1, b[1]);
        self.bytes.set(off + 2, b[2]);
        self.bytes.set(off + 3, b[3]);
        proof {
            crate::bytes::lemma_le32_of_bytes(value);
            let lb = crate::bytes::le_bytes(value as int, 4);
            assert(le32(self.bytes@, off as int) == le32(lb, 0));
            assert forall|a: u64| a + 4 <= addr || addr + 4 <= a implies #[trigger] self.load32(a) == old(self).load32(
                a,
            ) by {}
        }
        Ok(())
    }

    fn load_u64(&self, addr: u64) -> (r: Result<u64, IsaError>) {
        let off = self.offset(addr, 8)?;
        Ok(le_u64_at(self.bytes.as_slice(), off))
    }

    fn store_u64(&mut self, addr: u64, value: u64) -> (r: Result<(), IsaError>) {
        let off = self.offset(addr, 8)?;
        let _n = self.bytes.len();
        assert(off + 8 <= self.bytes@.len());
        let mut b: Vec<u8> = Vec::new();
        crate::bytes::push_le_u64(&mut b, value);
        let mut i: usize = 0;
        let ghost b0 = self.bytes@;
        while i < 8
            invariant
                i <= 8,
                self.base == old(self).base,
                b@ == crate::bytes::le_bytes(value as int, 8),
                off + 8 <= b0.len(),
                b0.len() <= usize::MAX,
                self.bytes@.len() == b0.len(),
                forall|j: int| 0 <= j < i ==> self.bytes@[off + j] == b@[j],
            decreases 8 - i,
        {
            self.bytes.set(off + i, b[i]);
            i = i + 1;
        }
        proof {
            crate::bytes::lemma_le64_of_bytes(value);
            let s = self.bytes@;
            assert(s[off + 0] == b@[0] && s[off + 1] == b@[1] && s[off + 2] == b@[2] && s[off + 3] == b@[3]);
            assert(s[off + 4] == b@[4] && s[off + 5] == b@[5] && s[off + 6] == b@[6] && s[off + 7] == b@[7]);
            assert(le64(self.bytes@, off as int) == le64(b@, 0));
        }
        Ok(())
    }
}

} // verus!
