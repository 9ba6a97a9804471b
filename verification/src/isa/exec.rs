//! Step and run for the gfx1201 subset.
//!
//! A step either applies the whole effect of one instruction or, when it
//! traps, changes neither the machine state nor memory.
use super::arch::{lanes_spec, WaveSize};
use super::decode::{decode_at, decode_at_spec, wrap_add};
use super::error::{IsaError, IsaErrorKind, TrapKind};
use super::inst::{size_spec, Inst, SBranchCond, SCmpOp, Sop1Op, Sop2Op, Vop2Op, VopcOp};
use super::mem::{GlobalArena, IsaMemory};
use super::state::{lane_on, pair_ok, pair_value, scalar_src, MachineState, MachineView, SGPR_COUNT, VGPR_PER_LANE};
use super::word::is_trap_error;
use crate::text::{cat, dec_u64, owned};
use vstd::prelude::*;

verus! {

/// Outcome of one step.
#[derive(Debug, Clone, Copy, PartialEq, Eq, Structural)]
pub enum StepOutcome {
    Continued,
    Halted,
}

/// `a + b` wrapping at 64 bits.
pub open spec fn wrap64(a: u64, b: u64) -> u64 {
    if a + b <= u64::MAX {
        (a + b) as u64
    } else {
        (a + b - 18446744073709551616) as u64
    }
}

/// Target of a taken SOPP branch: the next PC plus four times the signed offset.
pub open spec fn branch_target(pc: u32, simm16: u16) -> u32 {
    let t = pc + 4 + 4 * ((simm16 as i16) as int);
    if t < 0 {
        (t + 4294967296) as u32
    } else if t > u32::MAX {
        (t - 4294967296) as u32
    } else {
        t as u32
    }
}

pub open spec fn cond_holds(cond: SBranchCond, scc: bool, exec_mask: u64) -> bool {
    match cond {
        SBranchCond::Scc0 => !scc,
        SBranchCond::Scc1 => scc,
        SBranchCond::ExecZ => exec_mask == 0,
        SBranchCond::ExecNz => exec_mask != 0,
    }
}

pub open spec fn compare_holds(op: SCmpOp, a: u32, b: u32) -> bool {
    match op {
        SCmpOp::EqI32 => a == b,
        SCmpOp::LtI32 => (a as i32) < (b as i32),
        SCmpOp::EqU32 => a == b,
        SCmpOp::LgU32 => a != b,
        SCmpOp::GtU32 => a > b,
        SCmpOp::GeU32 => a >= b,
        SCmpOp::LeU32 => a <= b,
    }
}

/// VOP2 `src0`: inline constants 0..=64 and -1 only.
pub open spec fn vsrc0(enc: u16) -> Option<u32> {
    if 128 <= enc <= 192 {
        Some((enc - 128) as u32)
    } else if enc == 193 {
        Some(u32::MAX)
    } else {
        None
    }
}

/// The VOP2 ops the interpreter executes.
pub open spec fn vop2_supported(op: Vop2Op) -> bool {
    op == Vop2Op::LshlRevB32 || op == Vop2Op::AddNcU32 || op == Vop2Op::MinU32 || op == Vop2Op::CndmaskB32
}

/// What a VOP2 op computes from `src0`, the lane's `vsrc1` value and the
/// lane's VCC bit `sel`.
pub open spec fn vop2_value(op: Vop2Op, s0: u32, x: u32, sel: bool) -> u32 {
    match op {
        Vop2Op::CndmaskB32 => if sel {
            x
        } else {
            s0
        },
        Vop2Op::LshlRevB32 => x << (s0 & 31u32),
        Vop2Op::AddNcU32 => ((s0 + x) % 4294967296) as u32,
        Vop2Op::MinU32 => if s0 <= x {
            s0
        } else {
            x
        },
        _ => 0,
    }
}

/// Bit `l` of a VCC mask.
pub open spec fn vcc_bit(vcc: u64, l: int) -> bool {
    (vcc >> (l as u64)) & 1u64 == 1u64
}

/// Whether a VOPC compare holds for `src0` and the lane's `vsrc1` value.
pub open spec fn vopc_holds(op: VopcOp, a: u32, b: u32) -> bool {
    match op {
        VopcOp::EqU32 => a == b,
        VopcOp::NeU32 => a != b,
        VopcOp::LtU32 => a < b,
        VopcOp::GtU32 => a > b,
        VopcOp::LeU32 => a <= b,
        VopcOp::GeU32 => a >= b,
    }
}

/// The lanes where a VOPC compare holds: active lanes whose `vsrc1`
/// value compares true against `s0`.
pub open spec fn vopc_lanes(v: MachineView, op: VopcOp, s0: u32, src1: u8) -> spec_fn(int) -> bool {
    |l: int| lane_on(v.exec_mask, lanes_spec(v.wave_size), l) && vopc_holds(op, s0, v.vgpr[l][src1 as int])
}

/// The mask whose bits `0..n` are `f(0..n)` and whose other bits are clear.
pub open spec fn mask_bits(f: spec_fn(int) -> bool, n: nat) -> u64
    decreases n,
{
    if n == 0 {
        0u64
    } else {
        mask_bits(f, (n - 1) as nat) | (if f(n - 1) {
            1u64 << ((n - 1) as u64)
        } else {
            0u64
        })
    }
}

/// Register `vdst` of every active lane `l` set to `vals(l)`.
pub open spec fn lanes_update(v: MachineView, vdst: u8, vals: spec_fn(int) -> u32) -> Seq<Seq<u32>> {
    Seq::new(
        v.vgpr.len(),
        |l: int|
            if lane_on(v.exec_mask, lanes_spec(v.wave_size), l) {
                v.vgpr[l].update(vdst as int, vals(l))
            } else {
                v.vgpr[l]
            },
    )
}

/// Address a GLOBAL instruction uses in lane `l`.
pub open spec fn lane_addr(v: MachineView, base: u64, vaddr: u8, l: int) -> u64 {
    wrap64(base, v.vgpr[l][vaddr as int] as u64)
}

/// Every active lane's address can be loaded.
pub open spec fn all_loadable<M: IsaMemory>(v: MachineView, m: M, base: u64, vaddr: u8) -> bool {
    forall|l: int|
        lane_on(v.exec_mask, lanes_spec(v.wave_size), l) ==> #[trigger] m.load32(lane_addr(v, base, vaddr, l)) is Some
}

/// The register effect of `inst` executed at `pc` with memory `m`, or `None`
/// when it traps.
pub open spec fn exec_spec<M: IsaMemory>(v: MachineView, inst: Inst, pc: u32, m: M) -> Option<MachineView> {
    match inst {
        Inst::SNop { .. } => Some(v),
        Inst::SSleep { .. } => Some(v),
        Inst::SWaitCnt { .. } => Some(v),
        Inst::SEndPgm => Some(v),
        Inst::SCbranch { cond, simm16 } => Some(
            MachineView {
                pc: if cond_holds(cond, v.scc, v.exec_mask) { branch_target(pc, simm16) } else { wrap_add(pc, 4) },
                ..v
            },
        ),
        Inst::SCmp { op, ssrc0, ssrc1 } => match (scalar_src(v.sgpr, ssrc0.0), scalar_src(v.sgpr, ssrc1.0)) {
            (Some(a), Some(b)) => Some(MachineView { scc: compare_holds(op, a, b), ..v }),
            _ => None,
        },
        Inst::Sop1 { op, sdst, ssrc0 } => match scalar_src(v.sgpr, ssrc0.0) {
            Some(a) => if op == Sop1Op::MovB32 && (sdst.0 as int) < SGPR_COUNT {
                Some(MachineView { sgpr: v.sgpr.update(sdst.0 as int, a), ..v })
            } else {
                None
            },
            None => None,
        },
        Inst::Sop2 { op, sdst, ssrc0, ssrc1 } => match (scalar_src(v.sgpr, ssrc0.0), scalar_src(v.sgpr, ssrc1.0)) {
            (Some(a), Some(b)) => if op == Sop2Op::AddCoU32 && (sdst.0 as int) < SGPR_COUNT {
                Some(
                    MachineView {
                        sgpr: v.sgpr.update(sdst.0 as int, ((a + b) % 4294967296) as u32),
                        scc: a + b > u32::MAX,
                        ..v
                    },
                )
            } else {
                None
            },
            _ => None,
        },
        Inst::SLoadB64 { sdst, sbase, offset, .. } => if pair_ok(sbase) {
            match m.load64(wrap64(pair_value(v.sgpr, sbase), offset as u64)) {
                Some(val) => if pair_ok(sdst) {
                    Some(
                        MachineView {
                            sgpr: v.sgpr.update(sdst as int, (val % 4294967296) as u32).update(
                                sdst + 1,
                                (val / 4294967296) as u32,
                            ),
                            ..v
                        },
                    )
                } else {
                    None
                },
                None => None,
            }
        } else {
            None
        },
        Inst::Vop2 { op, vdst, src0_enc, src1, .. } => match vsrc0(src0_enc) {
            Some(s0) => if vop2_supported(op) {
                Some(
                    MachineView {
                        vgpr: lanes_update(
                            v,
                            vdst,
                            |l: int| vop2_value(op, s0, v.vgpr[l][src1 as int], vcc_bit(v.vcc, l)),
                        ),
                        ..v
                    },
                )
            } else {
                None
            },
            None => None,
        },
        Inst::Vopc { op, src0_enc, src1, .. } => match vsrc0(src0_enc) {
            Some(s0) => Some(
                MachineView {
                    vcc: mask_bits(vopc_lanes(v, op, s0, src1), lanes_spec(v.wave_size)),
                    ..v
                },
            ),
            None => None,
        },
        Inst::GlobalLoadB32 { vdst, vaddr, saddr, .. } => if pair_ok(saddr) && all_loadable(
            v,
            m,
            pair_value(v.sgpr, saddr),
            vaddr,
        ) {
            Some(
                MachineView {
                    vgpr: lanes_update(
                        v,
                        vdst,
                        |l: int| m.load32(lane_addr(v, pair_value(v.sgpr, saddr), vaddr, l))->0,
                    ),
                    ..v
                },
            )
        } else {
            None
        },
        Inst::GlobalStoreB32 { vaddr, saddr, .. } => if pair_ok(saddr) && all_loadable(
            v,
            m,
            pair_value(v.sgpr, saddr),
            vaddr,
        ) {
            Some(v)
        } else {
            None
        },
        _ => None,
    }
}

/// PC and halt update after the register effect of `inst`.
pub open spec fn finish_spec(v: MachineView, inst: Inst, pc: u32) -> MachineView {
    match inst {
        Inst::SEndPgm => MachineView { halted: true, ..v },
        Inst::SCbranch { .. } => v,
        _ => MachineView { pc: wrap_add(pc, size_spec(inst)), ..v },
    }
}

/// Two 4-byte accesses do not overlap.
pub open spec fn disjoint4(a: u64, b: u64) -> bool {
    a + 4 <= b || b + 4 <= a
}

/// Memory effect of `inst`: a store leaves each active lane's value at its
/// address unless a later active lane overwrites it; anything else leaves
/// memory as it was.
pub open spec fn mem_effect<M: IsaMemory>(m0: M, m1: M, v: MachineView, inst: Inst) -> bool {
    match inst {
        Inst::GlobalStoreB32 { vaddr, vdata, saddr, .. } => {
            let base = pair_value(v.sgpr, saddr);
            let lanes = lanes_spec(v.wave_size);
            &&& forall|a: u64| (#[trigger] m1.load32(a) is Some) == (m0.load32(a) is Some)
            &&& forall|l: int|
                lane_on(v.exec_mask, lanes, l) && (forall|l2: int|
                    l < l2 && lane_on(v.exec_mask, lanes, l2) ==> disjoint4(
                        lane_addr(v, base, vaddr, l),
                        #[trigger] lane_addr(v, base, vaddr, l2),
                    )) ==> #[trigger] m1.load32(lane_addr(v, base, vaddr, l)) == Some(v.vgpr[l][vdata as int])
        },
        _ => m1 == m0,
    }
}

fn set_lanes(state: &mut MachineState, vdst: u8, vals: &Vec<u32>)
    requires
        old(state).wf(),
        vals@.len() == old(state).vgpr@.len(),
    ensures
        final(state).wf(),
        final(state).arch == old(state).arch,
        final(state).view() == (MachineView {
            vgpr: lanes_update(old(state).view(), vdst, |l: int| vals@[l]),
            ..old(state).view()
        }),
{
    let ghost v0 = state.view();
    let lanes = state.vgpr.len();
    let mut lane: usize = 0;
    while lane < lanes
        invariant
            state.wf(),
            state.arch == old(state).arch,
            lanes == state.vgpr@.len(),
            v0.vgpr.len() == lanes,
            vals@.len() == lanes,
            lane <= lanes,
            v0 == old(state).view(),
            state.view() == (MachineView { vgpr: state.view().vgpr, ..v0 }),
            forall|l: int|
                0 <= l < lanes ==> #[trigger] state.view().vgpr[l] == (if l < lane {
                    lanes_update(v0, vdst, |l: int| vals@[l])[l]
                } else {
                    v0.vgpr[l]
                }),
        decreases lanes - lane,
    {
        let ghost vg = state.view().vgpr;
        let ghost target = lanes_update(v0, vdst, |l: int| vals@[l]);
        assert(vg[lane as int] == v0.vgpr[lane as int]);
        if state.lane_active(lane) {
            let mut row = state.vgpr[lane].clone();
            assert(row@ =~= state.vgpr@[lane as int]@);
            row.set(vdst as usize, vals[lane]);
            state.vgpr.set(lane, row);
            assert(state.view().vgpr =~= vg.update(lane as int, target[lane as int]));
        } else {
            assert(target[lane as int] == v0.vgpr[lane as int]);
        }
        lane = lane + 1;
    }
    assert(state.view().vgpr =~= lanes_update(v0, vdst, |l: int| vals@[l]));
}

fn apply_scalar<M: IsaMemory>(state: &mut MachineState, inst: &Inst, pc: u32, Ghost(m): Ghost<M>) -> (r: Result<(), IsaError>)
    requires
        old(state).wf(),
        inst is SCbranch || inst is SCmp || inst is Sop1 || inst is Sop2,
    ensures
        final(state).wf(),
        final(state).arch == old(state).arch,
        match exec_spec(old(state).view(), *inst, pc, m) {
            None => r is Err && final(state).view() == old(state).view(),
            Some(v2) => r is Ok && final(state).view() == v2,
        },
{
    match *inst {
        Inst::SCbranch { cond, simm16 } => {
            let taken = match cond {
                SBranchCond::Scc0 => !state.scc,
                SBranchCond::Scc1 => state.scc,
                SBranchCond::ExecZ => state.exec_mask == 0,
                SBranchCond::ExecNz => state.exec_mask != 0,
            };
            if taken {
                let t: i64 = pc as i64 + 4 + 4 * ((simm16 as i16) as i64);
                state.pc = if t < 0 {
                    (t + 4294967296) as u32
                } else if t > u32::MAX as i64 {
                    (t - 4294967296) as u32
                } else {
                    t as u32
                };
            } else {
                state.pc = pc.wrapping_add(4);
            }
            Ok(())
        },
        Inst::SCmp { op, ssrc0, ssrc1 } => {
            let a = state.read_scalar(ssrc0, pc)?;
            let b = state.read_scalar(ssrc1, pc)?;
            state.scc = match op {
                SCmpOp::EqI32 => a == b,
                SCmpOp::LtI32 => (a as i32) < (b as i32),
                SCmpOp::EqU32 => a == b,
                SCmpOp::LgU32 => a != b,
                SCmpOp::GtU32 => a > b,
                SCmpOp::GeU32 => a >= b,
                SCmpOp::LeU32 => a <= b,
            };
            Ok(())
        },
        Inst::Sop1 { op, sdst, ssrc0 } => {
            let a = state.read_scalar(ssrc0, pc)?;
            match op {
                Sop1Op::MovB32 => state.write_sgpr(sdst, a, pc),
                _ => Err(TrapKind::UnsupportedOpcode { format: "SOP1", op: 0, word: 0, pc }.to_error()),
            }
        },
        Inst::Sop2 { op, sdst, ssrc0, ssrc1 } => {
            let a = state.read_scalar(ssrc0, pc)?;
            let b = state.read_scalar(ssrc1, pc)?;
            match op {
                Sop2Op::AddCoU32 => {
                    let s: u64 = a as u64 + b as u64;
                    state.write_sgpr(sdst, (s % 4294967296) as u32, pc)?;
                    state.scc = s > u32::MAX as u64;
                    Ok(())
                },
                _ => Err(TrapKind::UnsupportedOpcode { format: "SOP2", op: 0, word: 0, pc }.to_error()),
            }
        },
        _ => Ok(()),
    }
}

fn apply_smem<M: IsaMemory>(state: &mut MachineState, sdst: u8, sbase: u8, offset: u32, size: u32, pc: u32, mem: &M) -> (r: Result<(), IsaError>)
    requires
        old(state).wf(),
    ensures
        final(state).wf(),
        final(state).arch == old(state).arch,
        match exec_spec(old(state).view(), Inst::SLoadB64 { sdst, sbase, offset, size }, pc, *mem) {
            None => r is Err && final(state).view() == old(state).view(),
            Some(v2) => r is Ok && final(state).view() == v2,
        },
{
    let base = state.read_sgpr_pair(sbase, pc)?;
    let addr = base.wrapping_add(offset as u64);
    let val = mem.load_u64(addr)?;
    state.write_sgpr_pair(sdst, val, pc)
}

/// Per-lane values of a VOP2 op over `src1`, or `None` for an op outside the subset.
fn vop2_values(state: &MachineState, op: Vop2Op, s0: u32, src1: u8) -> (r: Option<Vec<u32>>)
    requires
        state.wf(),
    ensures
        vop2_supported(op) <==> r is Some,
        r matches Some(vals) ==> vals@.len() == state.vgpr@.len() && forall|l: int|
            0 <= l < vals@.len() ==> #[trigger] vals@[l] == vop2_value(
                op,
                s0,
                state.view().vgpr[l][src1 as int],
                vcc_bit(state.vcc, l),
            ),
{
    match op {
        Vop2Op::LshlRevB32 | Vop2Op::AddNcU32 | Vop2Op::MinU32 | Vop2Op::CndmaskB32 => {},
        _ => {
            return None;
        },
    }
    let sh = s0 & 31u32;
    assert(s0 & 31u32 < 32) by (bit_vector);
    let lanes = state.vgpr.len();
    assert(lanes <= 64);
    let mut vals: Vec<u32> = Vec::new();
    let mut l: usize = 0;
    while l < lanes
        invariant
            state.wf(),
            lanes == state.vgpr@.len(),
            sh == s0 & 31u32,
            sh < 32,
            vop2_supported(op),
            l <= lanes,
            vals@.len() == l,
            lanes <= 64,
            forall|k: int|
                0 <= k < l ==> #[trigger] vals@[k] == vop2_value(
                    op,
                    s0,
                    state.view().vgpr[k][src1 as int],
                    vcc_bit(state.vcc, k),
                ),
        decreases lanes - l,
    {
        let x = state.vgpr[l][src1 as usize];
        assert(x == state.view().vgpr[l as int][src1 as int]);
        let sel = (state.vcc >> (l as u64)) & 1u64 == 1u64;
        let v = match op {
            Vop2Op::LshlRevB32 => x << sh,
            Vop2Op::AddNcU32 => ((s0 as u64 + x as u64) % 4294967296) as u32,
            Vop2Op::CndmaskB32 => if sel {
                x
            } else {
                s0
            },
            _ => if s0 <= x {
                s0
            } else {
                x
            },
        };
        vals.push(v);
        l = l + 1;
    }
    Some(vals)
}

fn apply_vop2<M: IsaMemory>(state: &mut MachineState, op: Vop2Op, vdst: u8, src0_enc: u16, src1: u8, size: u32, pc: u32, Ghost(m): Ghost<M>) -> (r: Result<(), IsaError>)
    requires
        old(state).wf(),
    ensures
        final(state).wf(),
        final(state).arch == old(state).arch,
        match exec_spec(old(state).view(), Inst::Vop2 { op, vdst, src0_enc, src1, size }, pc, m) {
            None => r is Err && final(state).view() == old(state).view(),
            Some(v2) => r is Ok && final(state).view() == v2,
        },
{
    let s0: u32 = if 128 <= src0_enc && src0_enc <= 192 {
        (src0_enc - 128) as u32
    } else if src0_enc == 193 {
        u32::MAX
    } else {
        return Err(TrapKind::UnsupportedOperand { encoding: src0_enc as u8, role: "vop2_src0", pc }.to_error());
    };
    let vals = match vop2_values(state, op, s0, src1) {
        Some(v) => v,
        None => {
            return Err(TrapKind::UnsupportedOpcode { format: "VOP2", op: 0, word: 0, pc }.to_error());
        },
    };
    let ghost v0 = state.view();
    set_lanes(state, vdst, &vals);
    proof {
        assert(lanes_update(v0, vdst, |l: int| vals@[l]) =~= lanes_update(
            v0,
            vdst,
            |l: int| vop2_value(op, s0, v0.vgpr[l][src1 as int], vcc_bit(v0.vcc, l)),
        ));
    }
    Ok(())
}

fn apply_vopc<M: IsaMemory>(state: &mut MachineState, op: VopcOp, src0_enc: u16, src1: u8, size: u32, pc: u32, Ghost(m): Ghost<M>) -> (r: Result<(), IsaError>)
    requires
        old(state).wf(),
    ensures
        final(state).wf(),
        final(state).arch == old(state).arch,
        match exec_spec(old(state).view(), Inst::Vopc { op, src0_enc, src1, size }, pc, m) {
            None => r is Err && final(state).view() == old(state).view(),
            Some(v2) => r is Ok && final(state).view() == v2,
        },
{
    let s0: u32 = if 128 <= src0_enc && src0_enc <= 192 {
        (src0_enc - 128) as u32
    } else if src0_enc == 193 {
        u32::MAX
    } else {
        return Err(TrapKind::UnsupportedOperand { encoding: src0_enc as u8, role: "vopc_src0", pc }.to_error());
    };
    let ghost v0 = state.view();
    let ghost f = vopc_lanes(v0, op, s0, src1);
    let lanes = state.wave_size.lanes();
    let mut vcc: u64 = 0;
    let mut l: usize = 0;
    while l < lanes
        invariant
            state.wf(),
            state.view() == v0,
            lanes == lanes_spec(v0.wave_size),
            lanes <= 64,
            l <= lanes,
            f == vopc_lanes(v0, op, s0, src1),
            vcc == mask_bits(f, l as nat),
        decreases lanes - l,
    {
        let on = state.lane_active(l);
        let x = state.vgpr[l][src1 as usize];
        assert(x == v0.vgpr[l as int][src1 as int]);
        let holds = match op {
            VopcOp::EqU32 => s0 == x,
            VopcOp::NeU32 => s0 != x,
            VopcOp::LtU32 => s0 < x,
            VopcOp::GtU32 => s0 > x,
            VopcOp::LeU32 => s0 <= x,
            VopcOp::GeU32 => s0 >= x,
        };
        let bit: u64 = if on && holds { 1u64 << (l as u64) } else { 0u64 };
        assert(on == lane_on(v0.exec_mask, lanes_spec(v0.wave_size), l as int));
        assert(holds == vopc_holds(op, s0, v0.vgpr[l as int][src1 as int]));
        assert(f(l as int) == (on && holds));
        vcc = vcc | bit;
        assert(vcc == mask_bits(f, (l + 1) as nat));
        l = l + 1;
    }
    state.vcc = vcc;
    Ok(())
}

fn apply_global_load<M: IsaMemory>(state: &mut MachineState, vdst: u8, vaddr: u8, saddr: u8, size: u32, pc: u32, mem: &M) -> (r: Result<(), IsaError>)
    requires
        old(state).wf(),
    ensures
        final(state).wf(),
        final(state).arch == old(state).arch,
        match exec_spec(old(state).view(), Inst::GlobalLoadB32 { vdst, vaddr, saddr, size }, pc, *mem) {
            None => r is Err && final(state).view() == old(state).view(),
            Some(v2) => r is Ok && final(state).view() == v2,
        },
{
    let base = state.read_sgpr_pair(saddr, pc)?;
    let ghost v0 = state.view();
    let lanes = state.vgpr.len();
    let mut vals: Vec<u32> = Vec::new();
    let mut l: usize = 0;
    while l < lanes
        invariant
            state.wf(),
            state.view() == v0,
            v0 == old(state).view(),
            pair_ok(saddr),
            base == pair_value(v0.sgpr, saddr),
            lanes == state.vgpr@.len(),
            lanes == lanes_spec(v0.wave_size),
            l <= lanes,
            vals@.len() == l,
            forall|k: int|
                0 <= k < l && lane_on(v0.exec_mask, lanes_spec(v0.wave_size), k) ==> Some(#[trigger] vals@[k])
                    == mem.load32(lane_addr(v0, base, vaddr, k)),
            forall|k: int|
                0 <= k < l && lane_on(v0.exec_mask, lanes_spec(v0.wave_size), k) ==> #[trigger] mem.load32(
                    lane_addr(v0, base, vaddr, k),
                ) is Some,
        decreases lanes - l,
    {
        if state.lane_active(l) {
            let off = state.vgpr[l][vaddr as usize] as u64;
            assert(off == v0.vgpr[l as int][vaddr as int]);
            assert(base.wrapping_add(off) == lane_addr(v0, base, vaddr, l as int));
            let v = mem.load_u32(base.wrapping_add(off))?;
            vals.push(v);
        } else {
            vals.push(0);
        }
        l = l + 1;
    }
    assert(all_loadable(v0, *mem, base, vaddr));
    set_lanes(state, vdst, &vals);
    proof {
        let f = |k: int| mem.load32(lane_addr(v0, base, vaddr, k))->0;
        assert(lanes_update(v0, vdst, |k: int| vals@[k]) =~= lanes_update(v0, vdst, f));
    }
    Ok(())
}

/// Lane `l` of a GLOBAL store and the lanes after it.
pub open spec fn later_disjoint(v: MachineView, base: u64, vaddr: u8, l: int, upto: int) -> bool {
    forall|l2: int|
        l < l2 < upto && lane_on(v.exec_mask, lanes_spec(v.wave_size), l2) ==> disjoint4(
            lane_addr(v, base, vaddr, l),
            #[trigger] lane_addr(v, base, vaddr, l2),
        )
}

fn apply_global_store<M: IsaMemory>(state: &MachineState, vaddr: u8, vdata: u8, saddr: u8, size: u32, pc: u32, mem: &mut M) -> (r: Result<(), IsaError>)
    requires
        state.wf(),
    ensures
        match exec_spec(state.view(), Inst::GlobalStoreB32 { vaddr, vdata, saddr, size }, pc, *old(mem)) {
            None => r is Err && *final(mem) == *old(mem),
            Some(v2) => r is Ok && mem_effect(*old(mem), *final(mem), state.view(), Inst::GlobalStoreB32 { vaddr, vdata, saddr, size }),
        },
{
    let base = state.read_sgpr_pair(saddr, pc)?;
    let ghost v0 = state.view();
    let lanes = state.vgpr.len();
    let mut l: usize = 0;
    while l < lanes
        invariant
            state.wf(),
            state.view() == v0,
            pair_ok(saddr),
            base == pair_value(v0.sgpr, saddr),
            lanes == state.vgpr@.len(),
            lanes == lanes_spec(v0.wave_size),
            l <= lanes,
            *mem == *old(mem),
            forall|k: int|
                0 <= k < l && lane_on(v0.exec_mask, lanes_spec(v0.wave_size), k) ==> #[trigger] mem.load32(
                    lane_addr(v0, base, vaddr, k),
                ) is Some,
        decreases lanes - l,
    {
        if state.lane_active(l) {
            let off = state.vgpr[l][vaddr as usize] as u64;
            assert(off == v0.vgpr[l as int][vaddr as int]);
            assert(base.wrapping_add(off) == lane_addr(v0, base, vaddr, l as int));
            let _probe = mem.load_u32(base.wrapping_add(off))?;
        }
        l = l + 1;
    }
    assert(all_loadable(v0, *old(mem), base, vaddr));
    let ghost m0 = *mem;
    let mut l: usize = 0;
    while l < lanes
        invariant
            state.wf(),
            state.view() == v0,
            lanes == state.vgpr@.len(),
            lanes == lanes_spec(v0.wave_size),
            l <= lanes,
            m0 == *old(mem),
            pair_ok(saddr),
            base == pair_value(v0.sgpr, saddr),
            all_loadable(v0, m0, base, vaddr),
            forall|a: u64| (#[trigger] mem.load32(a) is Some) == (m0.load32(a) is Some),
            forall|k: int|
                0 <= k < l && lane_on(v0.exec_mask, lanes_spec(v0.wave_size), k) && later_disjoint(v0, base, vaddr, k, l as int)
                    ==> #[trigger] mem.load32(lane_addr(v0, base, vaddr, k)) == Some(v0.vgpr[k][vdata as int]),
        decreases lanes - l,
    {
        if state.lane_active(l) {
            let off = state.vgpr[l][vaddr as usize] as u64;
            let val = state.vgpr[l][vdata as usize];
            assert(off == v0.vgpr[l as int][vaddr as int]);
            assert(val == v0.vgpr[l as int][vdata as int]);
            let addr = base.wrapping_add(off);
            assert(m0.load32(lane_addr(v0, base, vaddr, l as int)) is Some);
            let ghost mb = *mem;
            match mem.store_u32(addr, val) {
                Ok(()) => {},
                Err(e) => {
                    assert(false);
                    return Err(e);
                },
            }
            assert forall|k: int|
                0 <= k < l + 1 && lane_on(v0.exec_mask, lanes_spec(v0.wave_size), k) && later_disjoint(
                    v0,
                    base,
                    vaddr,
                    k,
                    l + 1,
                ) implies #[trigger] mem.load32(lane_addr(v0, base, vaddr, k)) == Some(v0.vgpr[k][vdata as int]) by {
                if k < l {
                    assert(later_disjoint(v0, base, vaddr, k, l as int));
                    assert(disjoint4(lane_addr(v0, base, vaddr, k), lane_addr(v0, base, vaddr, l as int)));
                    assert(mb.load32(lane_addr(v0, base, vaddr, k)) == Some(v0.vgpr[k][vdata as int]));
                }
            }
        } else {
            assert forall|k: int|
                0 <= k < l + 1 && lane_on(v0.exec_mask, lanes_spec(v0.wave_size), k) && later_disjoint(
                    v0,
                    base,
                    vaddr,
                    k,
                    l + 1,
                ) implies #[trigger] mem.load32(lane_addr(v0, base, vaddr, k)) == Some(v0.vgpr[k][vdata as int]) by {
                assert(later_disjoint(v0, base, vaddr, k, l as int));
            }
        }
        l = l + 1;
    }
    proof {
        assert forall|k: int|
            lane_on(v0.exec_mask, lanes_spec(v0.wave_size), k) && (forall|l2: int|
                k < l2 && lane_on(v0.exec_mask, lanes_spec(v0.wave_size), l2) ==> disjoint4(
                    lane_addr(v0, base, vaddr, k),
                    #[trigger] lane_addr(v0, base, vaddr, l2),
                )) implies #[trigger] mem.load32(lane_addr(v0, base, vaddr, k)) == Some(v0.vgpr[k][vdata as int]) by {
            assert(later_disjoint(v0, base, vaddr, k, lanes as int));
        }
    }
    Ok(())
}

fn apply<M: IsaMemory>(state: &mut MachineState, inst: &Inst, pc: u32, mem: &mut M) -> (r: Result<(), IsaError>)
    requires
        old(state).wf(),
    ensures
        final(state).wf(),
        final(state).arch == old(state).arch,
        match exec_spec(old(state).view(), *inst, pc, *old(mem)) {
            None => r is Err && final(state).view() == old(state).view() && *final(mem) == *old(mem),
            Some(v2) => r is Ok && final(state).view() == v2 && mem_effect(*old(mem), *final(mem), old(state).view(), *inst),
        },
{
    match *inst {
        Inst::SNop { .. } | Inst::SSleep { .. } | Inst::SWaitCnt { .. } | Inst::SEndPgm => Ok(()),
        Inst::SCbranch { .. } | Inst::SCmp { .. } | Inst::Sop1 { .. } | Inst::Sop2 { .. } => {
            apply_scalar::<M>(state, inst, pc, Ghost(*mem))
        },
        Inst::SLoadB64 { sdst, sbase, offset, size } => apply_smem(state, sdst, sbase, offset, size, pc, &*mem),
        Inst::Vop2 { op, vdst, src0_enc, src1, size } => apply_vop2::<M>(state, op, vdst, src0_enc, src1, size, pc, Ghost(*mem)),
        Inst::Vopc { op, src0_enc, src1, size } => apply_vopc::<M>(state, op, src0_enc, src1, size, pc, Ghost(*mem)),
        Inst::GlobalLoadB32 { vdst, vaddr, saddr, size } => apply_global_load(state, vdst, vaddr, saddr, size, pc, &*mem),
        Inst::GlobalStoreB32 { vaddr, vdata, saddr, size } => apply_global_store(&*state, vaddr, vdata, saddr, size, pc, mem),
        _ => Err(TrapKind::UnsupportedOpcode { format: "EXEC", op: 0, word: 0, pc }.to_error()),
    }
}

/// Fetch, decode and execute one instruction at `state.pc`.
///
/// On any trap neither the state nor memory changes.
pub fn step<M: IsaMemory>(state: &mut MachineState, code: &[u8], mem: &mut M) -> (r: Result<StepOutcome, IsaError>)
    requires
        old(state).wf(),
    ensures
        final(state).wf(),
        final(state).arch == old(state).arch,
        r is Err ==> final(state).view() == old(state).view() && *final(mem) == *old(mem),
        old(state).halted ==> (r matches Err(e) && is_trap_error(e, TrapKind::Halted)),
        !old(state).halted ==> match decode_at_spec(code@, old(state).pc) {
            Err(t) => r matches Err(e) && is_trap_error(e, t),
            Ok(inst) => match exec_spec(old(state).view(), inst, old(state).pc, *old(mem)) {
                None => r is Err,
                Some(v2) => {
                    &&& r == Ok::<StepOutcome, IsaError>(
                        if inst is SEndPgm { StepOutcome::Halted } else { StepOutcome::Continued },
                    )
                    &&& final(state).view() == finish_spec(v2, inst, old(state).pc)
                    &&& mem_effect(*old(mem), *final(mem), old(state).view(), inst)
                },
            },
        },
{
    if state.halted {
        return Err(TrapKind::Halted.to_error());
    }
    let pc = state.pc;
    let inst = decode_at(code, pc)?;
    let size = inst.size_bytes();
    apply(state, &inst, pc, mem)?;
    match inst {
        Inst::SEndPgm => {
            state.halted = true;
            Ok(StepOutcome::Halted)
        },
        Inst::SCbranch { .. } => Ok(StepOutcome::Continued),
        _ => {
            state.pc = pc.wrapping_add(size);
            Ok(StepOutcome::Continued)
        },
    }
}

/// One step with an empty memory (scalar programs).
pub fn step_salu(state: &mut MachineState, code: &[u8]) -> (r: Result<StepOutcome, IsaError>)
    requires
        old(state).wf(),
    ensures
        final(state).wf(),
        r is Err ==> final(state).view() == old(state).view(),
        !old(state).halted ==> match decode_at_spec(code@, old(state).pc) {
            Err(t) => r matches Err(e) && is_trap_error(e, t),
            Ok(inst) => exists|m: GlobalArena|
                m.base == 0 && m.bytes@.len() == 0 && match #[trigger] exec_spec(old(state).view(), inst, old(state).pc, m) {
                    None => r is Err,
                    Some(v2) => r is Ok && final(state).view() == finish_spec(v2, inst, old(state).pc),
                },
        },
{
    let mut mem = GlobalArena::new(0, 0);
    let ghost m0 = mem;
    let r = step(state, code, &mut mem);
    proof {
        if !old(state).halted {
            if let Ok(inst) = decode_at_spec(code@, old(state).pc) {
                assert(m0.bytes@.len() == 0);
                let _ = exec_spec(old(state).view(), inst, old(state).pc, m0);
            }
        }
    }
    r
}

/// One step of `code` leads from view `v` and memory `m` to view `v1` and
/// memory `m1`: the wave is running, the instruction at its PC decodes and
/// executes without a trap.
pub open spec fn step_rel<M: IsaMemory>(code: Seq<u8>, v: MachineView, m: M, v1: MachineView, m1: M) -> bool {
    &&& !v.halted
    &&& match decode_at_spec(code, v.pc) {
        Ok(inst) => match exec_spec(v, inst, v.pc, m) {
            Some(v2) => v1 == finish_spec(v2, inst, v.pc) && mem_effect(m, m1, v, inst),
            None => false,
        },
        Err(_) => false,
    }
}

/// `vs` and `ms` are the views and memories a run of `code` passes
/// through: each one leads to the next by one step.
pub open spec fn trace_ok<M: IsaMemory>(code: Seq<u8>, vs: Seq<MachineView>, ms: Seq<M>) -> bool {
    &&& vs.len() >= 1
    &&& ms.len() == vs.len()
    &&& forall|i: int, j: int|
        #![trigger vs[i], vs[j]]
        0 <= i && j == i + 1 && j < vs.len() ==> step_rel(code, vs[i], ms[i], vs[j], ms[j])
}

/// `n` steps of `code` lead from view `v0` and memory `m0` to view `v` and
/// memory `m`.
pub open spec fn steps_rel<M: IsaMemory>(code: Seq<u8>, v0: MachineView, m0: M, n: nat, v: MachineView, m: M) -> bool {
    exists|vs: Seq<MachineView>, ms: Seq<M>|
        #[trigger] trace_ok(code, vs, ms) && vs.len() == n + 1 && vs[0] == v0 && ms[0] == m0 && vs[n as int] == v
            && ms[n as int] == m
}

/// The wave cannot step from view `v` with memory `m`: it has halted, or the
/// instruction at its PC does not decode, or it traps.
pub open spec fn traps<M: IsaMemory>(code: Seq<u8>, v: MachineView, m: M) -> bool {
    v.halted || match decode_at_spec(code, v.pc) {
        Err(_) => true,
        Ok(inst) => exec_spec(v, inst, v.pc, m) is None,
    }
}

/// A run of `code` from view `v0` and memory `m0` with at most `max` steps
/// stops without `s_endpgm` in view `v` and memory `m`: after fewer than
/// `max` steps the wave cannot step, or `max` steps leave it running (with
/// no step allowed, the run stops where it starts).
pub open spec fn run_stops<M: IsaMemory>(code: Seq<u8>, v0: MachineView, m0: M, max: nat, v: MachineView, m: M) -> bool {
    exists|vs: Seq<MachineView>, ms: Seq<M>|
        #[trigger] trace_ok(code, vs, ms) && vs[0] == v0 && ms[0] == m0 && vs.last() == v && ms.last() == m && (
        (vs.len() <= max && traps(code, v, m)) || (vs.len() == max + 1 && (max > 0 ==> !v.halted)))
}

/// Run until `s_endpgm`, a trap, or `max_steps` steps; the number of steps
/// executed, the last one being `s_endpgm`.
pub fn run<M: IsaMemory>(state: &mut MachineState, code: &[u8], mem: &mut M, max_steps: u64) -> (r: Result<u64, IsaError>)
    requires
        old(state).wf(),
    ensures
        final(state).wf(),
        final(state).arch == old(state).arch,
        r matches Ok(n) ==> 1 <= n <= max_steps && final(state).halted,
        r matches Ok(n) ==> steps_rel(code@, old(state).view(), *old(mem), n as nat, final(state).view(), *final(mem)),
        r is Err ==> run_stops(code@, old(state).view(), *old(mem), max_steps as nat, final(state).view(), *final(mem)),
        r is Err ==> (final(state).halted <==> old(state).halted),
        max_steps == 0 ==> r is Err,
        old(state).halted ==> r is Err,
{
    let mut steps: u64 = 0;
    let ghost mut vs: Seq<MachineView> = seq![state.view()];
    let ghost mut ms: Seq<M> = seq![*mem];
    while steps < max_steps
        invariant
            state.wf(),
            state.arch == old(state).arch,
            steps <= max_steps,
            old(state).halted ==> state.halted,
            steps > 0 ==> !old(state).halted,
            trace_ok(code@, vs, ms),
            vs.len() == steps + 1,
            vs[0] == old(state).view(),
            ms[0] == *old(mem),
            vs[steps as int] == state.view(),
            ms[steps as int] == *mem,
            steps > 0 ==> !state.halted,
        decreases max_steps - steps,
    {
        let ghost v_before = state.view();
        let ghost m_before = *mem;
        let out = match step(state, code, mem) {
            Ok(o) => o,
            Err(e) => {
                proof {
                    assert(traps(code@, state.view(), *mem));
                    assert(trace_ok(code@, vs, ms) && vs.last() == state.view() && ms.last() == *mem);
                }
                return Err(e);
            },
        };
        proof {
            let vs1 = vs.push(state.view());
            let ms1 = ms.push(*mem);
            assert(step_rel(code@, v_before, m_before, state.view(), *mem));
            assert forall|i: int, j: int| 0 <= i && j == i + 1 && j < vs1.len() implies #[trigger] step_rel(
                code@,
                vs1[i],
                ms1[i],
                vs1[j],
                ms1[j],
            ) by {
                if j < vs.len() {
                    assert(vs1[i] == vs[i] && vs1[j] == vs[j] && ms1[i] == ms[i] && ms1[j] == ms[j]);
                    assert(step_rel(code@, vs[i], ms[i], vs[j], ms[j]));
                }
            }
            vs = vs1;
            ms = ms1;
            assert(trace_ok(code@, vs, ms));
        }
        match out {
            StepOutcome::Continued => {
                steps = steps + 1;
            },
            StepOutcome::Halted => {
                proof {
                    assert(trace_ok(code@, vs, ms) && vs.len() == (steps + 1) as nat + 1);
                }
                return Ok(steps + 1);
            },
        }
    }
    proof {
        assert(trace_ok(code@, vs, ms) && vs.last() == state.view() && ms.last() == *mem);
    }
    let m = cat(owned("exceeded max_steps="), dec_u64(max_steps).as_str());
    Err(
        IsaError::new(IsaErrorKind::Validation, cat(m, " without s_endpgm").as_str()).with_remediation(
            "increase max_steps or ensure code ends with s_endpgm",
        ),
    )
}

/// Run with an empty memory (scalar programs).
pub fn run_salu(state: &mut MachineState, code: &[u8], max_steps: u64) -> (r: Result<u64, IsaError>)
    requires
        old(state).wf(),
    ensures
        final(state).wf(),
        r matches Ok(n) ==> 1 <= n <= max_steps && final(state).halted,
        r matches Ok(n) ==> exists|m0: GlobalArena, m1: GlobalArena|
            m0.base == 0 && m0.bytes@.len() == 0 && #[trigger] steps_rel(
                code@,
                old(state).view(),
                m0,
                n as nat,
                final(state).view(),
                m1,
            ),
        r is Err ==> exists|m0: GlobalArena, m1: GlobalArena|
            m0.base == 0 && m0.bytes@.len() == 0 && #[trigger] run_stops(
                code@,
                old(state).view(),
                m0,
                max_steps as nat,
                final(state).view(),
                m1,
            ),
        r is Err ==> (final(state).halted <==> old(state).halted),
        max_steps == 0 ==> r is Err,
        old(state).halted ==> r is Err,
{
    let mut mem = GlobalArena::new(0, 0);
    let ghost m0 = mem;
    let r = run(state, code, &mut mem, max_steps);
    proof {
        if let Ok(n) = r {
            assert(steps_rel(code@, old(state).view(), m0, n as nat, state.view(), mem));
        } else {
            assert(run_stops(code@, old(state).view(), m0, max_steps as nat, state.view(), mem));
        }
    }
    r
}

} // verus!
