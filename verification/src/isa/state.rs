//! gfx1201 machine state.
//!
//! The wave size is a software parameter of the interpreter (not a claim
//! about hardware wavefronts).
use super::arch::{lanes_spec, Arch, WaveSize};
use super::error::{IsaError, IsaErrorKind, TrapKind};
use super::inst::ScalarEnc;
use super::word::is_trap_error;
use crate::text::{cat, owned, trimmed};
use vstd::prelude::*;

verus! {

/// Number of architected SGPRs.
pub const SGPR_COUNT: usize = 106;

/// VGPRs per lane.
pub const VGPR_PER_LANE: usize = 256;

/// Explicit machine state of one wave.
#[derive(Debug, Clone, PartialEq, Eq)]
pub struct MachineState {
    pub arch: Arch,
    pub wave_size: WaveSize,
    /// Byte PC into the code buffer.
    pub pc: u32,
    pub sgpr: Vec<u32>,
    /// Per-lane VGPR files of `VGPR_PER_LANE` registers.
    pub vgpr: Vec<Vec<u32>>,
    /// Scalar condition code (carry / compare).
    pub scc: bool,
    /// EXEC mask (low `wave_size` bits meaningful).
    pub exec_mask: u64,
    pub vcc: u64,
    pub halted: bool,
}

/// Mathematical model of a [`MachineState`].
pub struct MachineView {
    pub wave_size: WaveSize,
    pub pc: u32,
    pub sgpr: Seq<u32>,
    pub vgpr: Seq<Seq<u32>>,
    pub scc: bool,
    pub exec_mask: u64,
    pub vcc: u64,
    pub halted: bool,
}

/// Whether lane `lane` is enabled by `exec` in a wave of `lanes` lanes.
pub open spec fn lane_on(exec: u64, lanes: nat, lane: int) -> bool {
    0 <= lane < lanes && (exec >> (lane as u64)) & 1u64 == 1u64
}

/// Value of a scalar source operand: SGPR 0..=105, inline 0..=64, or -1.
pub open spec fn scalar_src(sgpr: Seq<u32>, enc: u8) -> Option<u32> {
    if (enc as int) < SGPR_COUNT {
        Some(sgpr[enc as int])
    } else if 128 <= enc <= 192 {
        Some((enc - 128) as u32)
    } else if enc == 193 {
        Some(u32::MAX)
    } else {
        None
    }
}

/// Whether `base` names an SGPR pair (`s[base:base+1]`, even, in range).
pub open spec fn pair_ok(base: u8) -> bool {
    base + 1 < SGPR_COUNT && base % 2 == 0
}

/// The 64-bit value of SGPR pair `base` (low word first).
pub open spec fn pair_value(sgpr: Seq<u32>, base: u8) -> u64 {
    (sgpr[base as int] + sgpr[base + 1] * 4294967296) as u64
}

impl MachineState {
    pub open spec fn view(&self) -> MachineView {
        MachineView {
            wave_size: self.wave_size,
            pc: self.pc,
            sgpr: self.sgpr@,
            vgpr: self.vgpr@.map_values(|r: Vec<u32>| r@),
            scc: self.scc,
            exec_mask: self.exec_mask,
            vcc: self.vcc,
            halted: self.halted,
        }
    }

    /// Register files have their architected sizes.
    pub open spec fn wf(&self) -> bool {
        &&& self.sgpr@.len() == SGPR_COUNT
        &&& self.vgpr@.len() == lanes_spec(self.wave_size)
        &&& forall|l: int| 0 <= l < self.vgpr@.len() ==> (#[trigger] self.vgpr@[l])@.len() == VGPR_PER_LANE
    }

    /// A fresh wave: zeroed registers, every lane enabled, PC 0.
    pub fn new(arch: Arch, wave_size: WaveSize) -> (r: Self)
        ensures
            r.wf(),
            r.arch == arch,
            r.wave_size == wave_size,
            r.pc == 0,
            forall|i: int| 0 <= i < SGPR_COUNT ==> r.sgpr@[i] == 0,
            forall|l: int, i: int| 0 <= l < r.vgpr@.len() && 0 <= i < VGPR_PER_LANE ==> r.vgpr@[l]@[i] == 0,
            r.exec_mask == (if wave_size == WaveSize::Wave32 { 0xffff_ffffu64 } else { u64::MAX }),
            !r.scc,
            r.vcc == 0,
            !r.halted,
    {
        let lanes = wave_size.lanes();
        let exec: u64 = if wave_size == WaveSize::Wave32 { 0xffff_ffff } else { u64::MAX };
        let mut sgpr: Vec<u32> = Vec::new();
        let mut i: usize = 0;
        while i < SGPR_COUNT
            invariant
                i <= SGPR_COUNT,
                sgpr@.len() == i,
                forall|j: int| 0 <= j < i ==> sgpr@[j] == 0,
            decreases SGPR_COUNT - i,
        {
            sgpr.push(0);
            i = i + 1;
        }
        let mut vgpr: Vec<Vec<u32>> = Vec::new();
        let mut k: usize = 0;
        while k < lanes
            invariant
                k <= lanes,
                vgpr@.len() == k,
                forall|l: int| 0 <= l < k ==> (#[trigger] vgpr@[l])@.len() == VGPR_PER_LANE,
                forall|l: int, j: int| 0 <= l < k && 0 <= j < VGPR_PER_LANE ==> vgpr@[l]@[j] == 0,
            decreases lanes - k,
        {
            let mut row: Vec<u32> = Vec::new();
            let mut j: usize = 0;
            while j < VGPR_PER_LANE
                invariant
                    j <= VGPR_PER_LANE,
                    row@.len() == j,
                    forall|x: int| 0 <= x < j ==> row@[x] == 0,
                decreases VGPR_PER_LANE - j,
            {
                row.push(0);
                j = j + 1;
            }
            vgpr.push(row);
            k = k + 1;
        }
        MachineState { arch, wave_size, pc: 0, sgpr, vgpr, scc: false, exec_mask: exec, vcc: 0, halted: false }
    }

    /// Whether `lane` is in the wave and enabled by EXEC.
    pub fn lane_active(&self, lane: usize) -> (r: bool)
        ensures
            r == lane_on(self.exec_mask, lanes_spec(self.wave_size), lane as int),
    {
        if lane >= self.wave_size.lanes() {
            return false;
        }
        (self.exec_mask >> (lane as u64)) & 1u64 == 1u64
    }

    /// Read a scalar source operand.
    pub fn read_scalar(&self, enc: ScalarEnc, pc: u32) -> (r: Result<u32, IsaError>)
        requires
            self.wf(),
        ensures
            match scalar_src(self.sgpr@, enc.0) {
                Some(v) => r == Ok::<u32, IsaError>(v),
                None => r matches Err(e) && is_trap_error(
                    e,
                    TrapKind::UnsupportedOperand { encoding: enc.0, role: "ssrc", pc },
                ),
            },
    {
        match read_src(&self.sgpr, enc.0) {
            Some(v) => Ok(v),
            None => Err(TrapKind::UnsupportedOperand { encoding: enc.0, role: "ssrc", pc }.to_error()),
        }
    }

    /// Write a scalar destination (SGPR 0..=105 only).
    pub fn write_sgpr(&mut self, enc: ScalarEnc, value: u32, pc: u32) -> (r: Result<(), IsaError>)
        requires
            old(self).wf(),
        ensures
            final(self).wf(),
            (enc.0 as int) < SGPR_COUNT ==> r is Ok && final(self).view() == (MachineView {
                sgpr: old(self).sgpr@.update(enc.0 as int, value),
                ..old(self).view()
            }),
            (enc.0 as int) >= SGPR_COUNT ==> (r matches Err(e) && is_trap_error(
                e,
                TrapKind::UnsupportedOperand { encoding: enc.0, role: "sdst", pc },
            )) && final(self).view() == old(self).view(),
            final(self).arch == old(self).arch,
    {
        let i = enc.0 as usize;
        if i < SGPR_COUNT {
            self.sgpr.set(i, value);
            Ok(())
        } else {
            Err(TrapKind::UnsupportedOperand { encoding: enc.0, role: "sdst", pc }.to_error())
        }
    }

    /// Read the 64-bit SGPR pair `s[base:base+1]`.
    pub fn read_sgpr_pair(&self, base: u8, pc: u32) -> (r: Result<u64, IsaError>)
        requires
            self.wf(),
        ensures
            pair_ok(base) ==> r == Ok::<u64, IsaError>(pair_value(self.sgpr@, base)),
            !pair_ok(base) ==> (r matches Err(e) && is_trap_error(
                e,
                TrapKind::UnsupportedOperand { encoding: base, role: "sgpr_pair", pc },
            )),
    {
        let b = base as usize;
        if b + 1 >= SGPR_COUNT || b % 2 != 0 {
            return Err(TrapKind::UnsupportedOperand { encoding: base, role: "sgpr_pair", pc }.to_error());
        }
        let lo = self.sgpr[b] as u64;
        let hi = self.sgpr[b + 1] as u64;
        Ok(lo + hi * 4294967296)
    }

    /// Write the 64-bit SGPR pair `s[base:base+1]` (low word first).
    pub fn write_sgpr_pair(&mut self, base: u8, value: u64, pc: u32) -> (r: Result<(), IsaError>)
        requires
            old(self).wf(),
        ensures
            final(self).wf(),
            final(self).arch == old(self).arch,
            pair_ok(base) ==> r is Ok && final(self).view() == (MachineView {
                sgpr: old(self).sgpr@.update(base as int, (value % 4294967296) as u32).update(
                    base + 1,
                    (value / 4294967296) as u32,
                ),
                ..old(self).view()
            }),
            !pair_ok(base) ==> (r matches Err(e) && is_trap_error(
                e,
                TrapKind::UnsupportedOperand { encoding: base, role: "sgpr_pair", pc },
            )) && final(self).view() == old(self).view(),
    {
        let b = base as usize;
        if b + 1 >= SGPR_COUNT || b % 2 != 0 {
            return Err(TrapKind::UnsupportedOperand { encoding: base, role: "sgpr_pair", pc }.to_error());
        }
        self.sgpr.set(b, (value % 4294967296) as u32);
        self.sgpr.set(b + 1, (value / 4294967296) as u32);
        Ok(())
    }
}

/// Value of a scalar source operand.
pub fn read_src(sgpr: &Vec<u32>, enc: u8) -> (r: Option<u32>)
    requires
        sgpr@.len() == SGPR_COUNT,
    ensures
        r == scalar_src(sgpr@, enc),
{
    let e = enc as usize;
    if e < SGPR_COUNT {
        Some(sgpr[e])
    } else if 128 <= e && e <= 192 {
        Some((e - 128) as u32)
    } else if e == 193 {
        Some(u32::MAX)
    } else {
        None
    }
}

/// Check that `arch` names the supported target.
pub fn require_gfx1201(arch: &str) -> (r: Result<Arch, IsaError>)
    ensures
        r is Ok <==> trimmed(arch@) == "gfx1201"@,
        r matches Ok(a) ==> a == Arch::Gfx1201,
        r matches Err(e) ==> e.kind == IsaErrorKind::Unsupported,
{
    match Arch::parse(arch) {
        Ok(a) => Ok(a),
        Err(e) => {
            let d = e.format_diagnostic();
            Err(IsaError::new(IsaErrorKind::Unsupported, e.message()).with_remediation(d.as_str()))
        },
    }
}

} // verus!
