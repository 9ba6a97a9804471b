//! What a run computes, stated as functions of the program, the launch, the
//! kernel arguments and the global arena it starts from.
//!
//! The model follows the interpreter's order exactly: workgroups in
//! lexicographic order, and inside a workgroup either each work-item to
//! completion in turn or, under the wave-barrier schedule, segment by segment
//! and wave by wave. A lane step costs one unit of the step budget. The
//! sanitizer and the observer are left out: they never change what a
//! successful run computes, they can only stop it.
use super::exec::{atomic_sum, binop_result, group_len, ExecConfig, LaunchConfig, SchedulePolicy};
use super::ir::{segments_of, AddrSpace, Op, Program, TypeId};
use super::memory::{access_in_bounds, load_spec, narrow_spec, store_spec};
use crate::bytes::zeros;
use vstd::prelude::*;

verus! {

/// One work-item as the interpreter sees it: its ids and its registers.
pub struct LaneModel {
    pub global: [u32; 3],
    pub local: [u32; 3],
    pub wg: [u32; 3],
    pub wave_id: u32,
    pub lane_id: u32,
    pub wave_size: u32,
    pub flat: u32,
    pub regs: Map<Seq<char>, i64>,
}

/// The lanes of a step together with global and group memory.
pub struct MachineModel {
    pub lanes: Seq<LaneModel>,
    pub global: Seq<u8>,
    pub group: Seq<u8>,
}

/// The value of register `n` of a lane, if bound.
pub open spec fn reg(l: LaneModel, n: String) -> Option<i64> {
    if l.regs.dom().contains(n@) {
        Some(l.regs[n@])
    } else {
        None
    }
}

/// The lane with register `n` bound to `v`.
pub open spec fn with_reg(l: LaneModel, n: String, v: i64) -> LaneModel {
    LaneModel { regs: l.regs.insert(n@, v), ..l }
}

/// A two-operand register op on a lane.
pub open spec fn binop_step(op: Op, l: LaneModel, dst: String, lhs: String, rhs: String) -> Option<LaneModel> {
    match (reg(l, lhs), reg(l, rhs)) {
        (Some(a), Some(b)) => Some(with_reg(l, dst, binop_result(op, a, b))),
        _ => None,
    }
}

/// A load of `ty` from memory `m` at the address in register `addr` into `dst`.
pub open spec fn load_step(l: LaneModel, m: Seq<u8>, dst: String, addr: String, ty: TypeId) -> Option<LaneModel> {
    match reg(l, addr) {
        Some(a) => match load_spec(m, a as u64, ty) {
            Some(v) => Some(with_reg(l, dst, v)),
            None => None,
        },
        None => None,
    }
}

/// A store of register `src` as `ty` into memory `m` at the address in
/// register `addr`.
pub open spec fn store_step(l: LaneModel, m: Seq<u8>, addr: String, src: String, ty: TypeId) -> Option<Seq<u8>> {
    match (reg(l, addr), reg(l, src)) {
        (Some(a), Some(v)) => if access_in_bounds(m.len(), a as u64, ty) {
            Some(store_spec(m, a as u64, ty, v))
        } else {
            None
        },
        _ => None,
    }
}

/// A 32-bit atomic add of register `src` into memory `m` at the address in
/// register `addr`; `dst` receives the previous value.
pub open spec fn atomic_step(l: LaneModel, m: Seq<u8>, dst: String, addr: String, src: String) -> Option<
    (LaneModel, Seq<u8>),
> {
    match (reg(l, addr), reg(l, src)) {
        (Some(a), Some(v)) => match load_spec(m, a as u64, TypeId::I32) {
            Some(old) => Some(
                (with_reg(l, dst, old), store_spec(m, a as u64, TypeId::I32, atomic_sum(old, v))),
            ),
            None => None,
        },
        _ => None,
    }
}

/// One non-control op on one lane: the new lane, global and group memory,
/// and the atomics it executed; `None` where the op fails.
pub open spec fn lane_step(op: Op, l: LaneModel, g: Seq<u8>, p: Seq<u8>, kernarg: Seq<u8>) -> Option<
    (LaneModel, Seq<u8>, Seq<u8>, nat),
> {
    match op {
        Op::Const { dst, ty, value } => Some((with_reg(l, dst, narrow_spec(value, ty)), g, p, 0)),
        Op::GlobalId { dst, dim } => Some((with_reg(l, dst, l.global[dim as int] as i64), g, p, 0)),
        Op::LocalId { dst, dim } => Some((with_reg(l, dst, l.local[dim as int] as i64), g, p, 0)),
        Op::WorkgroupId { dst, dim } => Some((with_reg(l, dst, l.wg[dim as int] as i64), g, p, 0)),
        Op::LaneId { dst } => Some((with_reg(l, dst, l.lane_id as i64), g, p, 0)),
        Op::WaveId { dst } => Some((with_reg(l, dst, l.wave_id as i64), g, p, 0)),
        Op::WaveSize { dst } => Some((with_reg(l, dst, l.wave_size as i64), g, p, 0)),
        Op::Add { dst, lhs, rhs, .. } => match binop_step(op, l, dst, lhs, rhs) {
            Some(l1) => Some((l1, g, p, 0)),
            None => None,
        },
        Op::Sub { dst, lhs, rhs, .. } => match binop_step(op, l, dst, lhs, rhs) {
            Some(l1) => Some((l1, g, p, 0)),
            None => None,
        },
        Op::Mul { dst, lhs, rhs, .. } => match binop_step(op, l, dst, lhs, rhs) {
            Some(l1) => Some((l1, g, p, 0)),
            None => None,
        },
        Op::CmpEq { dst, lhs, rhs, .. } => match binop_step(op, l, dst, lhs, rhs) {
            Some(l1) => Some((l1, g, p, 0)),
            None => None,
        },
        Op::CmpNe { dst, lhs, rhs, .. } => match binop_step(op, l, dst, lhs, rhs) {
            Some(l1) => Some((l1, g, p, 0)),
            None => None,
        },
        Op::And { dst, lhs, rhs, .. } => match binop_step(op, l, dst, lhs, rhs) {
            Some(l1) => Some((l1, g, p, 0)),
            None => None,
        },
        Op::KernargLoad { dst, offset, ty } => match load_spec(kernarg, offset as u64, ty) {
            Some(v) => Some((with_reg(l, dst, v), g, p, 0)),
            None => None,
        },
        Op::LoadGlobal { dst, addr, ty } => match load_step(l, g, dst, addr, ty) {
            Some(l1) => Some((l1, g, p, 0)),
            None => None,
        },
        Op::LoadGroup { dst, addr, ty } => match load_step(l, p, dst, addr, ty) {
            Some(l1) => Some((l1, g, p, 0)),
            None => None,
        },
        Op::StoreGlobal { addr, src, ty } => match store_step(l, g, addr, src, ty) {
            Some(g1) => Some((l, g1, p, 0)),
            None => None,
        },
        Op::StoreGroup { addr, src, ty } => match store_step(l, p, addr, src, ty) {
            Some(p1) => Some((l, g, p1, 0)),
            None => None,
        },
        Op::AtomicAdd { dst, addr, src, space, .. } => match space {
            AddrSpace::Global => match atomic_step(l, g, dst, addr, src) {
                Some((l1, g1)) => Some((l1, g1, p, 1)),
                None => None,
            },
            AddrSpace::Group => match atomic_step(l, p, dst, addr, src) {
                Some((l1, p1)) => Some((l1, g, p1, 1)),
                None => None,
            },
        },
        _ => None,
    }
}

/// Among the lanes active in `mask`, those whose register `cond` is
/// non-zero (`want`) or zero (`!want`); `None` when an active lane has no
/// `cond`.
pub open spec fn select_mask(lanes: Seq<LaneModel>, mask: Seq<bool>, cond: String, want: bool) -> Option<Seq<bool>> {
    if forall|i: int| 0 <= i < lanes.len() && mask[i] ==> #[trigger] reg(lanes[i], cond) is Some {
        Some(Seq::new(lanes.len(), |i: int| mask[i] && ((reg(lanes[i], cond)->Some_0 != 0) == want)))
    } else {
        None
    }
}

/// Some lane is active in `mask`.
pub open spec fn any_active(mask: Seq<bool>) -> bool {
    exists|i: int| 0 <= i < mask.len() && #[trigger] mask[i]
}

/// The machine with lane `i` and both memories replaced.
pub open spec fn after_lane(m: MachineModel, i: int, l: LaneModel, g: Seq<u8>, p: Seq<u8>) -> MachineModel {
    MachineModel { lanes: m.lanes.update(i, l), global: g, group: p }
}

/// A non-control op over the active lanes from index `i` on, each costing
/// one step of `budget`: the machine after them, the steps and the atomics.
pub open spec fn sem_lanes(op: Op, i: int, mask: Seq<bool>, m: MachineModel, budget: nat, kernarg: Seq<u8>) -> Option<
    (MachineModel, nat, nat),
>
    decreases m.lanes.len() - i,
{
    if i < 0 || i >= m.lanes.len() {
        Some((m, 0, 0))
    } else if !mask[i] {
        sem_lanes(op, i + 1, mask, m, budget, kernarg)
    } else if budget == 0 {
        None
    } else {
        match lane_step(op, m.lanes[i], m.global, m.group, kernarg) {
            Some((l1, g1, p1, a)) => match sem_lanes(
                op,
                i + 1,
                mask,
                after_lane(m, i, l1, g1, p1),
                (budget - 1) as nat,
                kernarg,
            ) {
                Some((m2, s, a2)) => Some((m2, s + 1, a + a2)),
                None => None,
            },
            None => None,
        }
    }
}

/// `r` with `s` steps and `a` atomics added in front.
pub open spec fn after_steps<T>(s: nat, a: nat, r: Option<(T, nat, nat)>) -> Option<(T, nat, nat)> {
    match r {
        Some((m, s2, a2)) => Some((m, s + s2, a + a2)),
        None => None,
    }
}

/// Ops `k..hi` of `ops` over the lanes active in `mask`, within `budget`
/// lane steps: the machine after them, the steps taken and the atomics
/// executed; `None` where the interpreter fails. With `stop_at_ret` a `Ret`
/// ends the run of the ops.
pub open spec fn sem_seq(
    ops: Seq<Op>,
    k: int,
    hi: int,
    mask: Seq<bool>,
    m: MachineModel,
    budget: nat,
    stop_at_ret: bool,
    kernarg: Seq<u8>,
) -> Option<(MachineModel, nat, nat)>
    decreases budget, ops, hi - k,
{
    if k < 0 || k >= hi || hi > ops.len() {
        Some((m, 0, 0))
    } else {
        match ops[k] {
            Op::Ret => if stop_at_ret {
                Some((m, 0, 0))
            } else {
                sem_seq(ops, k + 1, hi, mask, m, budget, stop_at_ret, kernarg)
            },
            Op::Barrier => None,
            Op::If { cond, then_body, else_body } => match (
                select_mask(m.lanes, mask, cond, true),
                select_mask(m.lanes, mask, cond, false),
            ) {
                (Some(tm), Some(em)) => {
                    proof {
                        assert(decreases_to!(ops => ops[k]));
                    }
                    match sem_seq(then_body@, 0, then_body@.len() as int, tm, m, budget, false, kernarg) {
                        Some((m1, s1, a1)) => if s1 <= budget {
                            match sem_seq(
                                else_body@,
                                0,
                                else_body@.len() as int,
                                em,
                                m1,
                                (budget - s1) as nat,
                                false,
                                kernarg,
                            ) {
                                Some((m2, s2, a2)) => if s1 + s2 <= budget {
                                    after_steps(
                                        s1 + s2,
                                        a1 + a2,
                                        sem_seq(
                                            ops,
                                            k + 1,
                                            hi,
                                            mask,
                                            m2,
                                            (budget - s1 - s2) as nat,
                                            stop_at_ret,
                                            kernarg,
                                        ),
                                    )
                                } else {
                                    None
                                },
                                None => None,
                            }
                        } else {
                            None
                        },
                        None => None,
                    }
                },
                _ => None,
            },
            Op::While { cond, body } => {
                proof {
                    assert(decreases_to!(ops => ops[k]));
                }
                match sem_while(cond, body@, mask, m, budget, kernarg) {
                    Some((m1, s1, a1)) => if s1 <= budget {
                        after_steps(
                            s1,
                            a1,
                            sem_seq(ops, k + 1, hi, mask, m1, (budget - s1) as nat, stop_at_ret, kernarg),
                        )
                    } else {
                        None
                    },
                    None => None,
                }
            },
            op => match sem_lanes(op, 0, mask, m, budget, kernarg) {
                Some((m1, s1, a1)) => if s1 <= budget {
                    after_steps(
                        s1,
                        a1,
                        sem_seq(ops, k + 1, hi, mask, m1, (budget - s1) as nat, stop_at_ret, kernarg),
                    )
                } else {
                    None
                },
                None => None,
            },
        }
    }
}

/// A `While` over the lanes active in `mask`: while some of them have a
/// non-zero `cond`, those run `body`. An iteration that takes no step would
/// repeat forever and counts as a failure.
pub open spec fn sem_while(
    cond: String,
    body: Seq<Op>,
    mask: Seq<bool>,
    m: MachineModel,
    budget: nat,
    kernarg: Seq<u8>,
) -> Option<(MachineModel, nat, nat)>
    decreases budget, body, body.len() + 1,
{
    match select_mask(m.lanes, mask, cond, true) {
        None => None,
        Some(im) => if !any_active(im) {
            Some((m, 0, 0))
        } else {
            match sem_seq(body, 0, body.len() as int, im, m, budget, false, kernarg) {
                Some((m1, s1, a1)) => if s1 == 0 || s1 > budget {
                    None
                } else {
                    after_steps(s1, a1, sem_while(cond, body, mask, m1, (budget - s1) as nat, kernarg))
                },
                None => None,
            }
        },
    }
}

/// The lane a work-item starts as: its ids and no registers.
pub open spec fn fresh_lane(launch: LaunchConfig, wg: [u32; 3], local: [u32; 3], wave_size: u32) -> LaneModel {
    let w = launch.workgroup;
    let flat = (local[0] + local[1] * w[0] + local[2] * w[0] * w[1]) as u32;
    LaneModel {
        global: [
            (wg[0] * w[0] + local[0]) as u32,
            (wg[1] * w[1] + local[1]) as u32,
            (wg[2] * w[2] + local[2]) as u32,
        ],
        local,
        wg,
        wave_id: flat / wave_size,
        lane_id: flat % wave_size,
        wave_size,
        flat,
        regs: Map::empty(),
    }
}

/// The body run by work-item `(lx, ly, lz)` of workgroup `wg` and then by
/// the following ones of its row, each to completion on its own lane:
/// global and group memory after them, steps and atomics.
pub open spec fn sem_lex_row(
    p: Program,
    cfg: ExecConfig,
    wg: [u32; 3],
    lz: u32,
    ly: u32,
    lx: int,
    g: Seq<u8>,
    grp: Seq<u8>,
    budget: nat,
    kernarg: Seq<u8>,
) -> Option<((Seq<u8>, Seq<u8>), nat, nat)>
    decreases cfg.launch.workgroup[0] - lx,
{
    if lx < 0 || lx >= cfg.launch.workgroup[0] {
        Some(((g, grp), 0, 0))
    } else {
        let lane = fresh_lane(cfg.launch, wg, [lx as u32, ly, lz], cfg.wave_size);
        match sem_seq(
            p.body@,
            0,
            p.body@.len() as int,
            seq![true],
            MachineModel { lanes: seq![lane], global: g, group: grp },
            budget,
            true,
            kernarg,
        ) {
            Some((m1, s1, a1)) => if s1 <= budget {
                after_steps(
                    s1,
                    a1,
                    sem_lex_row(p, cfg, wg, lz, ly, lx + 1, m1.global, m1.group, (budget - s1) as nat, kernarg),
                )
            } else {
                None
            },
            None => None,
        }
    }
}

/// Rows `ly..` of plane `lz` of workgroup `wg`, each row as `sem_lex_row`.
pub open spec fn sem_lex_plane(
    p: Program,
    cfg: ExecConfig,
    wg: [u32; 3],
    lz: u32,
    ly: int,
    g: Seq<u8>,
    grp: Seq<u8>,
    budget: nat,
    kernarg: Seq<u8>,
) -> Option<((Seq<u8>, Seq<u8>), nat, nat)>
    decreases cfg.launch.workgroup[1] - ly,
{
    if ly < 0 || ly >= cfg.launch.workgroup[1] {
        Some(((g, grp), 0, 0))
    } else {
        match sem_lex_row(p, cfg, wg, lz, ly as u32, 0, g, grp, budget, kernarg) {
            Some(((g1, p1), s1, a1)) => if s1 <= budget {
                after_steps(s1, a1, sem_lex_plane(p, cfg, wg, lz, ly + 1, g1, p1, (budget - s1) as nat, kernarg))
            } else {
                None
            },
            None => None,
        }
    }
}

/// Planes `lz..` of workgroup `wg` under the lexicographic schedule.
pub open spec fn sem_lex(
    p: Program,
    cfg: ExecConfig,
    wg: [u32; 3],
    lz: int,
    g: Seq<u8>,
    grp: Seq<u8>,
    budget: nat,
    kernarg: Seq<u8>,
) -> Option<((Seq<u8>, Seq<u8>), nat, nat)>
    decreases cfg.launch.workgroup[2] - lz,
{
    if lz < 0 || lz >= cfg.launch.workgroup[2] {
        Some(((g, grp), 0, 0))
    } else {
        match sem_lex_plane(p, cfg, wg, lz as u32, 0, g, grp, budget, kernarg) {
            Some(((g1, p1), s1, a1)) => if s1 <= budget {
                after_steps(s1, a1, sem_lex(p, cfg, wg, lz + 1, g1, p1, (budget - s1) as nat, kernarg))
            } else {
                None
            },
            None => None,
        }
    }
}

/// The local id of flat index `f` inside a workgroup of shape `w`.
pub open spec fn unflat(f: int, w: [u32; 3]) -> [u32; 3] {
    [(f % w[0] as int) as u32, ((f / w[0] as int) % w[1] as int) as u32, ((f / w[0] as int) / w[1] as int) as u32]
}

/// Work-items of a workgroup.
pub open spec fn wg_items(cfg: ExecConfig) -> int {
    cfg.launch.workgroup[0] * cfg.launch.workgroup[1] * cfg.launch.workgroup[2]
}

/// The lanes of workgroup `wg` in flat order, as they start.
pub open spec fn fresh_lanes(cfg: ExecConfig, wg: [u32; 3]) -> Seq<LaneModel> {
    Seq::new(
        wg_items(cfg) as nat,
        |f: int| fresh_lane(cfg.launch, wg, unflat(f, cfg.launch.workgroup), cfg.wave_size),
    )
}

/// Waves of a workgroup.
pub open spec fn wave_count(cfg: ExecConfig) -> int {
    (wg_items(cfg) + cfg.wave_size - 1) / (cfg.wave_size as int)
}

/// The lanes of wave `wave` among `n` lanes in waves of `ws`.
pub open spec fn wave_mask(n: int, wave: int, ws: int) -> Seq<bool> {
    Seq::new(
        n as nat,
        |i: int| wave * ws <= i && i < (if wave * ws + ws < n { wave * ws + ws } else { n }),
    )
}

/// Ops `lo..hi` of the body run by waves `wave..` in turn.
pub open spec fn sem_waves(
    p: Program,
    cfg: ExecConfig,
    lo: int,
    hi: int,
    wave: int,
    m: MachineModel,
    budget: nat,
    kernarg: Seq<u8>,
) -> Option<(MachineModel, nat, nat)>
    decreases wave_count(cfg) - wave,
{
    if wave < 0 || wave >= wave_count(cfg) {
        Some((m, 0, 0))
    } else {
        match sem_seq(
            p.body@,
            lo,
            hi,
            wave_mask(m.lanes.len() as int, wave, cfg.wave_size as int),
            m,
            budget,
            false,
            kernarg,
        ) {
            Some((m1, s1, a1)) => if s1 <= budget {
                after_steps(s1, a1, sem_waves(p, cfg, lo, hi, wave + 1, m1, (budget - s1) as nat, kernarg))
            } else {
                None
            },
            None => None,
        }
    }
}

/// Segments `si..` of the body, each run by all waves before the next.
pub open spec fn sem_segments(
    p: Program,
    cfg: ExecConfig,
    si: int,
    m: MachineModel,
    budget: nat,
    kernarg: Seq<u8>,
) -> Option<(MachineModel, nat, nat)>
    decreases segments_of(p.body@).len() - si,
{
    let segs = segments_of(p.body@);
    if si < 0 || si >= segs.len() {
        Some((m, 0, 0))
    } else {
        match sem_waves(p, cfg, segs[si].0, segs[si].1, 0, m, budget, kernarg) {
            Some((m1, s1, a1)) => if s1 <= budget {
                after_steps(s1, a1, sem_segments(p, cfg, si + 1, m1, (budget - s1) as nat, kernarg))
            } else {
                None
            },
            None => None,
        }
    }
}

/// Workgroup `wg` under the wave-barrier schedule; a body without a
/// segment cannot run under it.
pub open spec fn sem_wave_barrier(
    p: Program,
    cfg: ExecConfig,
    wg: [u32; 3],
    g: Seq<u8>,
    grp: Seq<u8>,
    budget: nat,
    kernarg: Seq<u8>,
) -> Option<((Seq<u8>, Seq<u8>), nat, nat)> {
    if segments_of(p.body@).len() == 0 {
        None
    } else {
        sem_wave_barrier_segments(p, cfg, wg, g, grp, budget, kernarg)
    }
}

/// The segments of workgroup `wg` under the wave-barrier schedule.
pub open spec fn sem_wave_barrier_segments(
    p: Program,
    cfg: ExecConfig,
    wg: [u32; 3],
    g: Seq<u8>,
    grp: Seq<u8>,
    budget: nat,
    kernarg: Seq<u8>,
) -> Option<((Seq<u8>, Seq<u8>), nat, nat)> {
    match sem_segments(
        p,
        cfg,
        0,
        MachineModel { lanes: fresh_lanes(cfg, wg), global: g, group: grp },
        budget,
        kernarg,
    ) {
        Some((m, s, a)) => Some(((m.global, m.group), s, a)),
        None => None,
    }
}

/// Workgroup `wg` with a fresh zeroed group memory, under the configured
/// schedule: global memory after it, steps and atomics.
pub open spec fn sem_workgroup(
    p: Program,
    cfg: ExecConfig,
    wg: [u32; 3],
    g: Seq<u8>,
    budget: nat,
    kernarg: Seq<u8>,
) -> Option<(Seq<u8>, nat, nat)> {
    let grp = zeros(group_len(cfg, p));
    let r = match cfg.schedule {
        SchedulePolicy::LexWorkitem => sem_lex(p, cfg, wg, 0, g, grp, budget, kernarg),
        SchedulePolicy::WaveBarrier => sem_wave_barrier(p, cfg, wg, g, grp, budget, kernarg),
    };
    match r {
        Some(((g1, _), s, a)) => Some((g1, s, a)),
        None => None,
    }
}

/// Workgroups per dimension.
pub open spec fn groups_in(cfg: ExecConfig, d: int) -> int {
    (cfg.launch.grid[d] / cfg.launch.workgroup[d]) as int
}

/// Workgroups `gx..` of row `gy` of plane `gz` of the grid.
pub open spec fn sem_grid_row(
    p: Program,
    cfg: ExecConfig,
    gz: u32,
    gy: u32,
    gx: int,
    g: Seq<u8>,
    budget: nat,
    kernarg: Seq<u8>,
) -> Option<(Seq<u8>, nat, nat)>
    decreases groups_in(cfg, 0) - gx,
{
    if gx < 0 || gx >= groups_in(cfg, 0) {
        Some((g, 0, 0))
    } else {
        match sem_workgroup(p, cfg, [gx as u32, gy, gz], g, budget, kernarg) {
            Some((g1, s1, a1)) => if s1 <= budget {
                after_steps(s1, a1, sem_grid_row(p, cfg, gz, gy, gx + 1, g1, (budget - s1) as nat, kernarg))
            } else {
                None
            },
            None => None,
        }
    }
}

/// Rows `gy..` of plane `gz` of the grid.
pub open spec fn sem_grid_plane(
    p: Program,
    cfg: ExecConfig,
    gz: u32,
    gy: int,
    g: Seq<u8>,
    budget: nat,
    kernarg: Seq<u8>,
) -> Option<(Seq<u8>, nat, nat)>
    decreases groups_in(cfg, 1) - gy,
{
    if gy < 0 || gy >= groups_in(cfg, 1) {
        Some((g, 0, 0))
    } else {
        match sem_grid_row(p, cfg, gz, gy as u32, 0, g, budget, kernarg) {
            Some((g1, s1, a1)) => if s1 <= budget {
                after_steps(s1, a1, sem_grid_plane(p, cfg, gz, gy + 1, g1, (budget - s1) as nat, kernarg))
            } else {
                None
            },
            None => None,
        }
    }
}

/// Planes `gz..` of the grid.
pub open spec fn sem_grid(
    p: Program,
    cfg: ExecConfig,
    gz: int,
    g: Seq<u8>,
    budget: nat,
    kernarg: Seq<u8>,
) -> Option<(Seq<u8>, nat, nat)>
    decreases groups_in(cfg, 2) - gz,
{
    if gz < 0 || gz >= groups_in(cfg, 2) {
        Some((g, 0, 0))
    } else {
        match sem_grid_plane(p, cfg, gz as u32, 0, g, budget, kernarg) {
            Some((g1, s1, a1)) => if s1 <= budget {
                after_steps(s1, a1, sem_grid(p, cfg, gz + 1, g1, (budget - s1) as nat, kernarg))
            } else {
                None
            },
            None => None,
        }
    }
}

/// What running `p` with `cfg` on global memory `arena` computes: the
/// global memory after the run, the lane steps and the atomics; `None`
/// where the interpreter fails.
pub open spec fn run_model(p: Program, cfg: ExecConfig, arena: Seq<u8>, kernarg: Seq<u8>) -> Option<(Seq<u8>, nat, nat)> {
    sem_grid(p, cfg, 0, arena, cfg.step_budget as nat, kernarg)
}

/// Two configurations that differ at most in their sanitizer mode and
/// schedule seed.
pub open spec fn same_run_config(a: ExecConfig, b: ExecConfig) -> bool {
    &&& a.launch == b.launch
    &&& a.wave_size == b.wave_size
    &&& a.group_bytes == b.group_bytes
    &&& a.schedule == b.schedule
    &&& a.step_budget == b.step_budget
}

/// `sem_lex_row` agrees under configurations that differ only in sanitizer mode
/// and schedule seed.
proof fn lemma_lex_row_cfg(
    p: Program,
    c1: ExecConfig,
    c2: ExecConfig,
    wg: [u32; 3],
    lz: u32,
    ly: u32,
    lx: int,
    g: Seq<u8>,
    grp: Seq<u8>,
    budget: nat,
    kernarg: Seq<u8>,
)
    requires
        same_run_config(c1, c2),
    ensures
        sem_lex_row(p, c1, wg, lz, ly, lx, g, grp, budget, kernarg) == sem_lex_row(
            p,
            c2,
            wg,
            lz,
            ly,
            lx,
            g,
            grp,
            budget,
            kernarg,
        ),
    decreases c1.launch.workgroup[0] - lx,
{
    if 0 <= lx < c1.launch.workgroup[0] {
        let lane = fresh_lane(c1.launch, wg, [lx as u32, ly, lz], c1.wave_size);
        match sem_seq(
            p.body@,
            0,
            p.body@.len() as int,
            seq![true],
            MachineModel { lanes: seq![lane], global: g, group: grp },
            budget,
            true,
            kernarg,
        ) {
            Some((m1, s1, a1)) => if s1 <= budget {
                lemma_lex_row_cfg(p, c1, c2, wg, lz, ly, lx + 1, m1.global, m1.group, (budget - s1) as nat, kernarg);
            },
            None => {},
        }
    }
}

/// `sem_lex_plane` agrees under configurations that differ only in sanitizer mode
/// and schedule seed.
proof fn lemma_lex_plane_cfg(
    p: Program,
    c1: ExecConfig,
    c2: ExecConfig,
    wg: [u32; 3],
    lz: u32,
    ly: int,
    g: Seq<u8>,
    grp: Seq<u8>,
    budget: nat,
    kernarg: Seq<u8>,
)
    requires
        same_run_config(c1, c2),
    ensures
        sem_lex_plane(p, c1, wg, lz, ly, g, grp, budget, kernarg) == sem_lex_plane(p, c2, wg, lz, ly, g, grp, budget, kernarg),
    decreases c1.launch.workgroup[1] - ly,
{
    if 0 <= ly < c1.launch.workgroup[1] {
        lemma_lex_row_cfg(p, c1, c2, wg, lz, ly as u32, 0, g, grp, budget, kernarg);
        match sem_lex_row(p, c1, wg, lz, ly as u32, 0, g, grp, budget, kernarg) {
            Some(((g1, p1), s1, a1)) => if s1 <= budget {
                lemma_lex_plane_cfg(p, c1, c2, wg, lz, ly + 1, g1, p1, (budget - s1) as nat, kernarg);
            },
            None => {},
        }
    }
}

/// `sem_lex` agrees under configurations that differ only in sanitizer mode
/// and schedule seed.
proof fn lemma_lex_cfg(
    p: Program,
    c1: ExecConfig,
    c2: ExecConfig,
    wg: [u32; 3],
    lz: int,
    g: Seq<u8>,
    grp: Seq<u8>,
    budget: nat,
    kernarg: Seq<u8>,
)
    requires
        same_run_config(c1, c2),
    ensures
        sem_lex(p, c1, wg, lz, g, grp, budget, kernarg) == sem_lex(p, c2, wg, lz, g, grp, budget, kernarg),
    decreases c1.launch.workgroup[2] - lz,
{
    if 0 <= lz < c1.launch.workgroup[2] {
        lemma_lex_plane_cfg(p, c1, c2, wg, lz as u32, 0, g, grp, budget, kernarg);
        match sem_lex_plane(p, c1, wg, lz as u32, 0, g, grp, budget, kernarg) {
            Some(((g1, p1), s1, a1)) => if s1 <= budget {
                lemma_lex_cfg(p, c1, c2, wg, lz + 1, g1, p1, (budget - s1) as nat, kernarg);
            },
            None => {},
        }
    }
}

/// `sem_waves` agrees under configurations that differ only in sanitizer mode
/// and schedule seed.
proof fn lemma_waves_cfg(
    p: Program,
    c1: ExecConfig,
    c2: ExecConfig,
    lo: int,
    hi: int,
    wave: int,
    m: MachineModel,
    budget: nat,
    kernarg: Seq<u8>,
)
    requires
        same_run_config(c1, c2),
    ensures
        sem_waves(p, c1, lo, hi, wave, m, budget, kernarg) == sem_waves(p, c2, lo, hi, wave, m, budget, kernarg),
    decreases wave_count(c1) - wave,
{
    if 0 <= wave < wave_count(c1) {
        match sem_seq(
            p.body@,
            lo,
            hi,
            wave_mask(m.lanes.len() as int, wave, c1.wave_size as int),
            m,
            budget,
            false,
            kernarg,
        ) {
            Some((m1, s1, a1)) => if s1 <= budget {
                lemma_waves_cfg(p, c1, c2, lo, hi, wave + 1, m1, (budget - s1) as nat, kernarg);
            },
            None => {},
        }
    }
}

/// `sem_segments` agrees under configurations that differ only in sanitizer mode
/// and schedule seed.
proof fn lemma_segments_cfg(p: Program, c1: ExecConfig, c2: ExecConfig, si: int, m: MachineModel, budget: nat, kernarg: Seq<u8>)
    requires
        same_run_config(c1, c2),
    ensures
        sem_segments(p, c1, si, m, budget, kernarg) == sem_segments(p, c2, si, m, budget, kernarg),
    decreases segments_of(p.body@).len() - si,
{
    let segs = segments_of(p.body@);
    if 0 <= si < segs.len() {
        lemma_waves_cfg(p, c1, c2, segs[si].0, segs[si].1, 0, m, budget, kernarg);
        match sem_waves(p, c1, segs[si].0, segs[si].1, 0, m, budget, kernarg) {
            Some((m1, s1, a1)) => if s1 <= budget {
                lemma_segments_cfg(p, c1, c2, si + 1, m1, (budget - s1) as nat, kernarg);
            },
            None => {},
        }
    }
}

/// `sem_workgroup` agrees under configurations that differ only in sanitizer mode
/// and schedule seed.
proof fn lemma_workgroup_cfg(p: Program, c1: ExecConfig, c2: ExecConfig, wg: [u32; 3], g: Seq<u8>, budget: nat, kernarg: Seq<u8>)
    requires
        same_run_config(c1, c2),
    ensures
        sem_workgroup(p, c1, wg, g, budget, kernarg) == sem_workgroup(p, c2, wg, g, budget, kernarg),
{
    let grp = zeros(group_len(c1, p));
    lemma_lex_cfg(p, c1, c2, wg, 0, g, grp, budget, kernarg);
    assert(fresh_lanes(c1, wg) == fresh_lanes(c2, wg));
    lemma_segments_cfg(
        p,
        c1,
        c2,
        0,
        MachineModel { lanes: fresh_lanes(c1, wg), global: g, group: grp },
        budget,
        kernarg,
    );
}

/// `sem_grid_row` agrees under configurations that differ only in sanitizer mode
/// and schedule seed.
proof fn lemma_grid_row_cfg(
    p: Program,
    c1: ExecConfig,
    c2: ExecConfig,
    gz: u32,
    gy: u32,
    gx: int,
    g: Seq<u8>,
    budget: nat,
    kernarg: Seq<u8>,
)
    requires
        same_run_config(c1, c2),
    ensures
        sem_grid_row(p, c1, gz, gy, gx, g, budget, kernarg) == sem_grid_row(p, c2, gz, gy, gx, g, budget, kernarg),
    decreases groups_in(c1, 0) - gx,
{
    if 0 <= gx < groups_in(c1, 0) {
        lemma_workgroup_cfg(p, c1, c2, [gx as u32, gy, gz], g, budget, kernarg);
        match sem_workgroup(p, c1, [gx as u32, gy, gz], g, budget, kernarg) {
            Some((g1, s1, a1)) => if s1 <= budget {
                lemma_grid_row_cfg(p, c1, c2, gz, gy, gx + 1, g1, (budget - s1) as nat, kernarg);
            },
            None => {},
        }
    }
}

/// `sem_grid_plane` agrees under configurations that differ only in sanitizer mode
/// and schedule seed.
proof fn lemma_grid_plane_cfg(
    p: Program,
    c1: ExecConfig,
    c2: ExecConfig,
    gz: u32,
    gy: int,
    g: Seq<u8>,
    budget: nat,
    kernarg: Seq<u8>,
)
    requires
        same_run_config(c1, c2),
    ensures
        sem_grid_plane(p, c1, gz, gy, g, budget, kernarg) == sem_grid_plane(p, c2, gz, gy, g, budget, kernarg),
    decreases groups_in(c1, 1) - gy,
{
    if 0 <= gy < groups_in(c1, 1) {
        lemma_grid_row_cfg(p, c1, c2, gz, gy as u32, 0, g, budget, kernarg);
        match sem_grid_row(p, c1, gz, gy as u32, 0, g, budget, kernarg) {
            Some((g1, s1, a1)) => if s1 <= budget {
                lemma_grid_plane_cfg(p, c1, c2, gz, gy + 1, g1, (budget - s1) as nat, kernarg);
            },
            None => {},
        }
    }
}

/// `sem_grid` agrees under configurations that differ only in sanitizer mode
/// and schedule seed.
proof fn lemma_grid_cfg(p: Program, c1: ExecConfig, c2: ExecConfig, gz: int, g: Seq<u8>, budget: nat, kernarg: Seq<u8>)
    requires
        same_run_config(c1, c2),
    ensures
        sem_grid(p, c1, gz, g, budget, kernarg) == sem_grid(p, c2, gz, g, budget, kernarg),
    decreases groups_in(c1, 2) - gz,
{
    if 0 <= gz < groups_in(c1, 2) {
        lemma_grid_plane_cfg(p, c1, c2, gz as u32, 0, g, budget, kernarg);
        match sem_grid_plane(p, c1, gz as u32, 0, g, budget, kernarg) {
            Some((g1, s1, a1)) => if s1 <= budget {
                lemma_grid_cfg(p, c1, c2, gz + 1, g1, (budget - s1) as nat, kernarg);
            },
            None => {},
        }
    }
}

/// The sanitizer only watches a run: two configurations that differ only in
/// their sanitizer mode (and schedule seed) compute the same memory, steps
/// and atomics, so a successful sanitized run ends where the unsanitized
/// run ends.
pub proof fn lemma_sanitizer_observes_only(p: Program, c1: ExecConfig, c2: ExecConfig, arena: Seq<u8>, kernarg: Seq<u8>)
    requires
        same_run_config(c1, c2),
    ensures
        run_model(p, c1, arena, kernarg) == run_model(p, c2, arena, kernarg),
{
    lemma_grid_cfg(p, c1, c2, 0, arena, c1.step_budget as nat, kernarg);
}

/// The interpreter is deterministic: the same program, configuration,
/// arena and kernel arguments can end in only one memory, step count and
/// atomics count.
pub proof fn lemma_run_deterministic(
    p: Program,
    cfg: ExecConfig,
    arena: Seq<u8>,
    kernarg: Seq<u8>,
    r1: (Seq<u8>, nat, nat),
    r2: (Seq<u8>, nat, nat),
)
    requires
        run_model(p, cfg, arena, kernarg) == Some(r1),
        run_model(p, cfg, arena, kernarg) == Some(r2),
    ensures
        r1 == r2,
{
}

/// Adding no steps changes nothing.
pub proof fn lemma_after_steps_zero<T>(r: Option<(T, nat, nat)>)
    ensures
        after_steps(0, 0, r) == r,
{
}

/// Steps added in two stages add up.
pub proof fn lemma_after_steps_add<T>(s1: nat, a1: nat, s2: nat, a2: nat, r: Option<(T, nat, nat)>)
    ensures
        after_steps(s1, a1, after_steps(s2, a2, r)) == after_steps(s1 + s2, a1 + a2, r),
{
}

/// Adding steps keeps success and failure.
pub proof fn lemma_after_steps_some<T>(s: nat, a: nat, r: Option<(T, nat, nat)>)
    ensures
        after_steps(s, a, r) is Some <==> r is Some,
{
}

} // verus!
