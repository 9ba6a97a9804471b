//! Deterministic interpreter of the functional IR.
//!
//! Work-items run as software lanes grouped into waves of `wave_size`. Under
//! the lexicographic schedule each work-item of a workgroup runs to
//! completion in turn; under the wave-barrier schedule the body is cut at its
//! barriers and, segment by segment, each wave runs the segment op by op over
//! its active lanes.
use super::debug::{DebugAction, ExecObserver, NoopObserver};
use super::error::FunctionalError;
use super::ir::{
    lemma_ops_valid_each, op_valid, ops_have_barrier, program_error, program_valid, segment_bounds, segments_of,
    AddrSpace, Op, Program, TypeId,
};
use super::model::{
    after_steps, lane_step, lemma_after_steps_add, lemma_after_steps_some, lemma_after_steps_zero, reg, select_mask, sem_lanes, sem_seq,
    sem_while, after_lane, any_active, with_reg, LaneModel, MachineModel, fresh_lane, sem_lex, sem_lex_plane,
    sem_lex_row, fresh_lanes, sem_segments, sem_wave_barrier, sem_waves, unflat, wave_count, wave_mask,
    wg_items, run_model, sem_grid, sem_grid_plane, sem_grid_row, sem_workgroup,
};
use super::memory::{access_in_bounds, kernarg_load, load_spec, narrow_spec, store_spec, type_size, GlobalArena};
use super::regs::{regs_set, Registers};
use super::sanitize::{
    access_checked, access_error, lemma_access_error, SanitizeMode, SanitizeReport, Sanitizer, WorkItemId,
};
use crate::text::{cat_string, dec_chars, dec_u64, owned};
use vstd::prelude::*;

verus! {

/// Marker carried by every functional-mode report.
pub const FUNCTIONAL_MODE_MARKER: &'static str = "softgpu_functional_cpu_not_gfx1201_isa";

/// Most work-items a launch may have.
pub const MAX_FLAT_WORKITEMS: u64 = 1048576;

/// Most work-items a workgroup may have.
pub const MAX_WORKGROUP_FLAT: u32 = 1024;

/// Lane steps a run may take unless configured otherwise.
pub const DEFAULT_STEP_BUDGET: u64 = 50000000;

/// Software wave width unless configured otherwise.
pub const DEFAULT_WAVE_SIZE: u32 = 32;

/// Widest software wave.
pub const MAX_WAVE_SIZE: u32 = 128;

/// Most group-memory bytes a workgroup may use.
pub const MAX_GROUP_BYTES: u32 = 65536;

/// Order in which the work-items of a workgroup run.
#[derive(Debug, Clone, Copy, PartialEq, Eq, Structural)]
pub enum SchedulePolicy {
    /// Each work-item runs to completion, in lexicographic order.
    LexWorkitem,
    /// Waves in order; barrier-separated segments synchronise the workgroup.
    WaveBarrier,
}

/// Grid and workgroup dimensions of a launch.
#[derive(Debug, Clone, Copy, PartialEq, Eq)]
pub struct LaunchConfig {
    pub grid: [u32; 3],
    pub workgroup: [u32; 3],
}

/// Product of three dimensions.
pub open spec fn dims_product(d: [u32; 3]) -> int {
    d[0] * d[1] * d[2]
}

/// A launch the interpreter accepts: non-zero dimensions, a grid divisible
/// by the workgroup in each dimension, and the software limits on sizes.
pub open spec fn launch_valid(l: LaunchConfig) -> bool {
    &&& forall|d: int| 0 <= d < 3 ==> #[trigger] l.workgroup[d] > 0 && l.grid[d] > 0 && l.grid[d] % l.workgroup[d] == 0
    &&& dims_product(l.workgroup) <= MAX_WORKGROUP_FLAT
    &&& dims_product(l.grid) <= MAX_FLAT_WORKITEMS
}

/// The detail of the first failing dimension check from dimension `d` on.
pub open spec fn dim_error(l: LaunchConfig, d: int) -> Option<Seq<char>>
    decreases 3 - d,
{
    if d < 0 || d >= 3 {
        None
    } else if l.workgroup[d] == 0 {
        Some("workgroup dimension must be > 0"@)
    } else if l.grid[d] == 0 {
        Some("grid dimension must be > 0"@)
    } else if l.grid[d] % l.workgroup[d] != 0 {
        Some("grid dimension not divisible by workgroup dimension"@)
    } else {
        dim_error(l, d + 1)
    }
}

/// The detail of the error an invalid launch is refused with.
pub open spec fn launch_error(l: LaunchConfig) -> Seq<char> {
    match dim_error(l, 0) {
        Some(e) => e,
        None => if dims_product(l.workgroup) > MAX_WORKGROUP_FLAT {
            "workgroup flat size exceeds "@ + dec_chars(MAX_WORKGROUP_FLAT as nat)
        } else {
            "flat work-item count exceeds "@ + dec_chars(MAX_FLAT_WORKITEMS as nat)
        },
    }
}

/// `e` is a validation error with detail `d`.
pub open spec fn is_validation(e: FunctionalError, d: Seq<char>) -> bool {
    e matches FunctionalError::Validation { detail } && detail@ == d
}

/// Product of three dimensions, computed without overflow.
fn product3(d: [u32; 3]) -> (r: u128)
    ensures
        r == dims_product(d),
{
    let a = d[0] as u128;
    let b = d[1] as u128;
    let c = d[2] as u128;
    assert(a * b <= 0xffff_ffff * 0xffff_ffffu128) by (nonlinear_arith)
        requires
            a <= 0xffff_ffff,
            b <= 0xffff_ffff,
    ;
    assert(a * b * c <= 0xffff_ffff * 0xffff_ffffu128 * 0xffff_ffffu128) by (nonlinear_arith)
        requires
            a * b <= 0xffff_ffff * 0xffff_ffffu128,
            c <= 0xffff_ffff,
            0 <= a * b,
    ;
    a * b * c
}

impl LaunchConfig {
    /// Fails closed unless the launch is valid.
    pub fn validate(&self) -> (r: Result<(), FunctionalError>)
        ensures
            r is Ok <==> launch_valid(*self),
            r is Err ==> r->Err_0 is Validation,
            r matches Err(e) ==> is_validation(e, launch_error(*self)),
    {
        let mut d: usize = 0;
        while d < 3
            invariant
                d <= 3,
                dim_error(*self, 0) == dim_error(*self, d as int),
                forall|k: int|
                    0 <= k < d ==> #[trigger] self.workgroup[k] > 0 && self.grid[k] > 0 && self.grid[k]
                        % self.workgroup[k] == 0,
            decreases 3 - d,
        {
            if self.workgroup[d] == 0 {
                return Err(FunctionalError::validation("workgroup dimension must be > 0"));
            }
            if self.grid[d] == 0 {
                return Err(FunctionalError::validation("grid dimension must be > 0"));
            }
            if self.grid[d] % self.workgroup[d] != 0 {
                return Err(FunctionalError::validation("grid dimension not divisible by workgroup dimension"));
            }
            d = d + 1;
        }
        let wg_flat = product3(self.workgroup);
        if wg_flat > MAX_WORKGROUP_FLAT as u128 {
            let m = cat_string(owned("workgroup flat size exceeds "), dec_u64(MAX_WORKGROUP_FLAT as u64));
            return Err(FunctionalError::Validation { detail: m });
        }
        let flat = product3(self.grid);
        if flat > MAX_FLAT_WORKITEMS as u128 {
            let m = cat_string(owned("flat work-item count exceeds "), dec_u64(MAX_FLAT_WORKITEMS));
            return Err(FunctionalError::Validation { detail: m });
        }
        Ok(())
    }

    /// Workgroups per dimension.
    pub fn num_workgroups(&self) -> (r: [u32; 3])
        requires
            self.workgroup[0] > 0 && self.workgroup[1] > 0 && self.workgroup[2] > 0,
        ensures
            forall|d: int| 0 <= d < 3 ==> #[trigger] r[d] == self.grid[d] / self.workgroup[d],
    {
        let r = [
            self.grid[0] / self.workgroup[0],
            self.grid[1] / self.workgroup[1],
            self.grid[2] / self.workgroup[2],
        ];
        assert forall|d: int| 0 <= d < 3 implies #[trigger] r[d] == self.grid[d] / self.workgroup[d] by {
            if d == 0 {
            } else if d == 1 {
            } else {
            }
        }
        r
    }

    /// Work-items per workgroup.
    pub fn workgroup_flat(&self) -> (r: u32)
        requires
            dims_product(self.workgroup) <= u32::MAX,
        ensures
            r == dims_product(self.workgroup),
    {
        let p = product3(self.workgroup);
        p as u32
    }
}

/// Everything that configures a run.
#[derive(Debug, Clone, Copy, PartialEq, Eq)]
pub struct ExecConfig {
    pub launch: LaunchConfig,
    pub wave_size: u32,
    pub group_bytes: u32,
    pub schedule: SchedulePolicy,
    pub step_budget: u64,
    pub sanitize: super::sanitize::SanitizeMode,
    /// Seed recorded with explored schedules.
    pub schedule_seed: u64,
}

/// Group-memory bytes a run gives each workgroup.
pub open spec fn group_len(cfg: ExecConfig, p: Program) -> nat {
    if cfg.group_bytes >= p.group_bytes {
        cfg.group_bytes as nat
    } else {
        p.group_bytes as nat
    }
}

/// A configuration the interpreter accepts for `p`.
pub open spec fn config_valid(cfg: ExecConfig, p: Program) -> bool {
    &&& launch_valid(cfg.launch)
    &&& 1 <= cfg.wave_size <= MAX_WAVE_SIZE
    &&& group_len(cfg, p) <= MAX_GROUP_BYTES
    &&& ops_have_barrier(p.body@) ==> cfg.schedule is WaveBarrier
}

/// The detail of the error an invalid configuration is refused with: the
/// launch's own error first.
pub open spec fn config_error(cfg: ExecConfig, p: Program) -> Seq<char> {
    if !launch_valid(cfg.launch) {
        launch_error(cfg.launch)
    } else if !(1 <= cfg.wave_size <= MAX_WAVE_SIZE) {
        "wave_size out of range 1..=128"@
    } else if group_len(cfg, p) > MAX_GROUP_BYTES {
        "group_bytes exceeds the SoftGPU maximum"@
    } else {
        "programs with barrier require schedule=wave_barrier"@
    }
}

impl ExecConfig {
    /// The default configuration of a launch: default wave size and step
    /// budget, no extra group memory, lexicographic schedule, no sanitizer.
    pub fn from_launch(launch: LaunchConfig) -> (r: Self)
        ensures
            r.launch == launch,
            r.wave_size == DEFAULT_WAVE_SIZE,
            r.group_bytes == 0,
            r.schedule is LexWorkitem,
            r.step_budget == DEFAULT_STEP_BUDGET,
            r.sanitize is Off,
            r.schedule_seed == 0,
    {
        ExecConfig {
            launch,
            wave_size: DEFAULT_WAVE_SIZE,
            group_bytes: 0,
            schedule: SchedulePolicy::LexWorkitem,
            step_budget: DEFAULT_STEP_BUDGET,
            sanitize: SanitizeMode::Off,
            schedule_seed: 0,
        }
    }

    /// Fails closed unless the configuration is valid for `program`.
    pub fn validate(&self, program: &Program) -> (r: Result<(), FunctionalError>)
        ensures
            r is Ok <==> config_valid(*self, *program),
            r is Err ==> r->Err_0 is Validation,
            r matches Err(e) ==> is_validation(e, config_error(*self, *program)),
    {
        self.launch.validate()?;
        if self.wave_size == 0 || self.wave_size > MAX_WAVE_SIZE {
            return Err(FunctionalError::validation("wave_size out of range 1..=128"));
        }
        let need = if self.group_bytes >= program.group_bytes { self.group_bytes } else { program.group_bytes };
        if need > MAX_GROUP_BYTES {
            return Err(FunctionalError::validation("group_bytes exceeds the SoftGPU maximum"));
        }
        if program.has_barrier() && !matches!(self.schedule, SchedulePolicy::WaveBarrier) {
            return Err(FunctionalError::validation("programs with barrier require schedule=wave_barrier"));
        }
        Ok(())
    }
}

/// What a run reports.
#[derive(Debug, Clone, PartialEq, Eq)]
pub struct RunReport {
    pub fidelity: &'static str,
    pub mode: &'static str,
    pub note: &'static str,
    pub kernel: String,
    pub workitems_executed: u64,
    pub steps: u64,
    pub grid: [u32; 3],
    pub workgroup: [u32; 3],
    pub wave_size: u32,
    pub schedule: SchedulePolicy,
    pub barrier_generations: u64,
    pub atomics_executed: u64,
}

/// One software lane: its ids and its registers.
struct Lane {
    global: [u32; 3],
    local: [u32; 3],
    wg: [u32; 3],
    wave_id: u32,
    lane_id: u32,
    wave_size: u32,
    flat: u32,
    regs: Registers,
}

/// The work-item a lane stands for.
spec fn lane_actor(l: Lane) -> WorkItemId {
    WorkItemId { workgroup: l.wg, wave: l.wave_id, lane: l.lane_id, flat_local: l.flat }
}

/// Two lanes have the same ids (their registers may differ).
spec fn same_ids(a: Lane, b: Lane) -> bool {
    &&& a.global == b.global
    &&& a.local == b.local
    &&& a.wg == b.wg
    &&& a.wave_id == b.wave_id
    &&& a.lane_id == b.lane_id
    &&& a.wave_size == b.wave_size
    &&& a.flat == b.flat
}

/// The value a two-operand op computes from its operand values.
pub open spec fn binop_result(op: Op, a: i64, b: i64) -> i64 {
    match op {
        Op::Add { ty, .. } => narrow_spec(a.wrapping_add(b), ty),
        Op::Sub { ty, .. } => narrow_spec(a.wrapping_sub(b), ty),
        Op::Mul { ty, .. } => narrow_spec(a.wrapping_mul(b), ty),
        Op::CmpEq { ty, .. } => if narrow_spec(a, ty) == narrow_spec(b, ty) {
            1
        } else {
            0
        },
        Op::CmpNe { ty, .. } => if narrow_spec(a, ty) != narrow_spec(b, ty) {
            1
        } else {
            0
        },
        Op::And { ty, .. } => match ty {
            TypeId::I32 => ((a as i32) & (b as i32)) as i64,
            TypeId::U32 => ((a as u32) & (b as u32)) as i64,
            TypeId::U64 => ((a as u64) & (b as u64)) as i64,
        },
        _ => 0,
    }
}

/// How the comparisons behave: `CmpNe` is `1 - CmpEq`, both give 0 or 1,
/// a value equals itself, equality is symmetric, and `CmpNe` gives 1
/// exactly when the operands differ at the op's type.
pub proof fn lemma_compare_laws(dst: String, lhs: String, rhs: String, ty: TypeId, a: i64, b: i64)
    ensures
        ({
            let eq = Op::CmpEq { dst, lhs, rhs, ty };
            let ne = Op::CmpNe { dst, lhs, rhs, ty };
            &&& binop_result(ne, a, b) == 1 - binop_result(eq, a, b)
            &&& binop_result(eq, a, b) == 0 || binop_result(eq, a, b) == 1
            &&& binop_result(eq, a, a) == 1
            &&& binop_result(ne, a, a) == 0
            &&& binop_result(eq, a, b) == binop_result(eq, b, a)
            &&& (binop_result(ne, a, b) == 1 <==> narrow_spec(a, ty) != narrow_spec(b, ty))
        }),
{
}

/// The values of each type: 64-bit values are kept, 32-bit ones are kept
/// when they fit the type.
pub proof fn lemma_narrow_laws(v: i64)
    ensures
        narrow_spec(v, TypeId::U64) == v,
        0 <= v <= u32::MAX ==> narrow_spec(v, TypeId::U32) == v,
        i32::MIN <= v <= i32::MAX ==> narrow_spec(v, TypeId::I32) == v,
        0 <= narrow_spec(v, TypeId::U32) <= u32::MAX,
        i32::MIN <= narrow_spec(v, TypeId::I32) <= i32::MAX,
{
}

/// How the arithmetic ops behave: without overflow at the op's type they
/// compute the sum, difference and product; addition, multiplication and
/// `And` are commutative; 0 and 1 are identities and 0 absorbs.
pub proof fn lemma_arith_laws(dst: String, lhs: String, rhs: String, ty: TypeId, a: i64, b: i64)
    ensures
        ({
            let add = Op::Add { dst, lhs, rhs, ty };
            let sub = Op::Sub { dst, lhs, rhs, ty };
            let mul = Op::Mul { dst, lhs, rhs, ty };
            let and = Op::And { dst, lhs, rhs, ty };
            &&& ty == TypeId::U64 && i64::MIN <= a + b <= i64::MAX ==> binop_result(add, a, b) == a + b
            &&& ty == TypeId::U64 && i64::MIN <= a - b <= i64::MAX ==> binop_result(sub, a, b) == a - b
            &&& ty == TypeId::U64 && i64::MIN <= a * b <= i64::MAX ==> binop_result(mul, a, b) == a * b
            &&& ty == TypeId::I32 && i32::MIN <= a + b <= i32::MAX ==> binop_result(add, a, b) == a + b
            &&& ty == TypeId::I32 && i32::MIN <= a - b <= i32::MAX ==> binop_result(sub, a, b) == a - b
            &&& binop_result(add, a, b) == binop_result(add, b, a)
            &&& binop_result(mul, a, b) == binop_result(mul, b, a)
            &&& binop_result(and, a, b) == binop_result(and, b, a)
            &&& binop_result(add, a, 0) == narrow_spec(a, ty)
            &&& binop_result(sub, a, 0) == narrow_spec(a, ty)
            &&& binop_result(sub, a, a) == 0
            &&& binop_result(mul, a, 1) == narrow_spec(a, ty)
            &&& binop_result(mul, a, 0) == 0
            &&& binop_result(and, a, 0) == 0
        }),
{
    assert(a.wrapping_add(b) == b.wrapping_add(a));
    assert(a.wrapping_mul(b) == b.wrapping_mul(a));
    match ty {
        TypeId::I32 => {
            assert(((a as i32) & (b as i32)) == ((b as i32) & (a as i32))) by (bit_vector);
            assert(((a as i32) & (0i64 as i32)) == 0) by (bit_vector);
        },
        TypeId::U32 => {
            assert(((a as u32) & (b as u32)) == ((b as u32) & (a as u32))) by (bit_vector);
            assert(((a as u32) & (0i64 as u32)) == 0) by (bit_vector);
        },
        TypeId::U64 => {
            assert(((a as u64) & (b as u64)) == ((b as u64) & (a as u64))) by (bit_vector);
            assert(((a as u64) & (0i64 as u64)) == 0) by (bit_vector);
        },
    }
}

/// The operands of a two-operand op, or the first one that is unbound.
spec fn operands(l: Lane, lhs: String, rhs: String) -> Result<(i64, i64), FunctionalError> {
    match l.regs.get(lhs@) {
        None => Err(FunctionalError::UndefinedReg { name: lhs }),
        Some(a) => match l.regs.get(rhs@) {
            None => Err(FunctionalError::UndefinedReg { name: rhs }),
            Some(b) => Ok((a, b)),
        },
    }
}

/// The destination register of a register op.
pub open spec fn op_dst(op: Op) -> String {
    match op {
        Op::Const { dst, .. } => dst,
        Op::GlobalId { dst, .. } => dst,
        Op::LocalId { dst, .. } => dst,
        Op::WorkgroupId { dst, .. } => dst,
        Op::LaneId { dst } => dst,
        Op::WaveId { dst } => dst,
        Op::WaveSize { dst } => dst,
        Op::Add { dst, .. } => dst,
        Op::Sub { dst, .. } => dst,
        Op::Mul { dst, .. } => dst,
        Op::CmpEq { dst, .. } => dst,
        Op::CmpNe { dst, .. } => dst,
        Op::And { dst, .. } => dst,
        Op::KernargLoad { dst, .. } => dst,
        Op::LoadGlobal { dst, .. } => dst,
        Op::LoadGroup { dst, .. } => dst,
        Op::AtomicAdd { dst, .. } => dst,
        _ => arbitrary(),
    }
}

/// The value a register op writes, or why it fails.
spec fn register_op_result(op: Op, l: Lane, kernarg: Seq<u8>) -> Result<i64, FunctionalError> {
    match op {
        Op::Const { ty, value, .. } => Ok(narrow_spec(value, ty)),
        Op::GlobalId { dim, .. } => Ok(l.global[dim as int] as i64),
        Op::LocalId { dim, .. } => Ok(l.local[dim as int] as i64),
        Op::WorkgroupId { dim, .. } => Ok(l.wg[dim as int] as i64),
        Op::LaneId { .. } => Ok(l.lane_id as i64),
        Op::WaveId { .. } => Ok(l.wave_id as i64),
        Op::WaveSize { .. } => Ok(l.wave_size as i64),
        Op::Add { lhs, rhs, .. } => match operands(l, lhs, rhs) {
            Ok((a, b)) => Ok(binop_result(op, a, b)),
            Err(e) => Err(e),
        },
        Op::Sub { lhs, rhs, .. } => match operands(l, lhs, rhs) {
            Ok((a, b)) => Ok(binop_result(op, a, b)),
            Err(e) => Err(e),
        },
        Op::Mul { lhs, rhs, .. } => match operands(l, lhs, rhs) {
            Ok((a, b)) => Ok(binop_result(op, a, b)),
            Err(e) => Err(e),
        },
        Op::CmpEq { lhs, rhs, .. } => match operands(l, lhs, rhs) {
            Ok((a, b)) => Ok(binop_result(op, a, b)),
            Err(e) => Err(e),
        },
        Op::CmpNe { lhs, rhs, .. } => match operands(l, lhs, rhs) {
            Ok((a, b)) => Ok(binop_result(op, a, b)),
            Err(e) => Err(e),
        },
        Op::And { lhs, rhs, .. } => match operands(l, lhs, rhs) {
            Ok((a, b)) => Ok(binop_result(op, a, b)),
            Err(e) => Err(e),
        },
        Op::KernargLoad { offset, ty, .. } => match load_spec(kernarg, offset as u64, ty) {
            Some(v) => Ok(v),
            None => Err(
                FunctionalError::Bounds {
                    addr: offset as u64,
                    size: type_size(ty) as usize,
                    arena_len: kernarg.len() as usize,
                },
            ),
        },
        _ => Err(FunctionalError::Internal(arbitrary())),
    }
}

/// A load into `dst` from the arena `m` of `space` at the address held in
/// register `addr`.
spec fn load_effect(
    space: AddrSpace,
    dst: String,
    addr: String,
    ty: TypeId,
    l0: Lane,
    l1: Lane,
    m0: GlobalArena,
    m1: GlobalArena,
    s0: Sanitizer,
    s1: Sanitizer,
    r: Result<u64, FunctionalError>,
) -> bool {
    match l0.regs.get(addr@) {
        None => r == Err::<u64, FunctionalError>(FunctionalError::UndefinedReg { name: addr }) && l1 == l0 && m1
            == m0 && s1 == s0,
        Some(av) => {
            let a = av as u64;
            &&& exists|sr: Result<(), FunctionalError>|
                #[trigger] access_checked(s0, s1, space, a, ty, false, false, lane_actor(l0), sr)
            &&& m1 == m0
            &&& match access_error(s0, s1, space, a, ty, false, false, lane_actor(l0)) {
                Some(e) => r == Err::<u64, FunctionalError>(e) && l1 == l0,
                None => match load_spec(m0@, a, ty) {
                    Some(v) => r == Ok::<u64, FunctionalError>(0) && same_ids(l0, l1) && regs_set(
                        l0.regs,
                        l1.regs,
                        dst@,
                        v,
                    ),
                    None => r == Err::<u64, FunctionalError>(
                        FunctionalError::Bounds { addr: a, size: type_size(ty) as usize, arena_len: m0@.len() as usize },
                    ) && l1 == l0,
                },
            }
        },
    }
}

/// A store of register `src` into the arena of `space` at the address held
/// in register `addr`.
spec fn store_effect(
    space: AddrSpace,
    addr: String,
    src: String,
    ty: TypeId,
    l0: Lane,
    l1: Lane,
    m0: GlobalArena,
    m1: GlobalArena,
    s0: Sanitizer,
    s1: Sanitizer,
    r: Result<u64, FunctionalError>,
) -> bool {
    &&& l1 == l0
    &&& match operands(l0, addr, src) {
        Err(e) => r == Err::<u64, FunctionalError>(e) && m1 == m0 && s1 == s0,
        Ok((av, v)) => {
            let a = av as u64;
            &&& exists|sr: Result<(), FunctionalError>|
                #[trigger] access_checked(s0, s1, space, a, ty, true, false, lane_actor(l0), sr)
            &&& match access_error(s0, s1, space, a, ty, true, false, lane_actor(l0)) {
                Some(e) => r == Err::<u64, FunctionalError>(e) && m1 == m0,
                None => if access_in_bounds(m0@.len(), a, ty) {
                    r == Ok::<u64, FunctionalError>(0) && m1@ == store_spec(m0@, a, ty, v)
                } else {
                    r == Err::<u64, FunctionalError>(
                        FunctionalError::Bounds { addr: a, size: type_size(ty) as usize, arena_len: m0@.len() as usize },
                    ) && m1@ == m0@
                },
            }
        },
    }
}

/// The sum an atomic add stores: 32-bit wrapping.
pub open spec fn atomic_sum(old: i64, v: i64) -> i64 {
    ((old as i32).wrapping_add(v as i32)) as i64
}

/// An atomic add of register `src` into the arena of `space` at the address
/// held in register `addr`; `dst` receives the previous value.
spec fn atomic_effect(
    space: AddrSpace,
    dst: String,
    addr: String,
    src: String,
    l0: Lane,
    l1: Lane,
    m0: GlobalArena,
    m1: GlobalArena,
    s0: Sanitizer,
    s1: Sanitizer,
    r: Result<u64, FunctionalError>,
) -> bool {
    match operands(l0, addr, src) {
        Err(e) => r == Err::<u64, FunctionalError>(e) && l1 == l0 && m1 == m0 && s1 == s0,
        Ok((av, v)) => {
            let a = av as u64;
            &&& exists|sr: Result<(), FunctionalError>|
                #[trigger] access_checked(s0, s1, space, a, TypeId::I32, true, true, lane_actor(l0), sr)
            &&& match access_error(s0, s1, space, a, TypeId::I32, true, true, lane_actor(l0)) {
                Some(e) => r == Err::<u64, FunctionalError>(e) && l1 == l0 && m1 == m0,
                None => match load_spec(m0@, a, TypeId::I32) {
                    Some(old) => r == Ok::<u64, FunctionalError>(1) && m1@ == store_spec(
                        m0@,
                        a,
                        TypeId::I32,
                        atomic_sum(old, v),
                    ) && same_ids(l0, l1) && regs_set(l0.regs, l1.regs, dst@, old),
                    None => r == Err::<u64, FunctionalError>(
                        FunctionalError::Bounds { addr: a, size: 4, arena_len: m0@.len() as usize },
                    ) && l1 == l0 && m1 == m0,
                },
            }
        },
    }
}

/// What executing `op` on lane `l0` does to the lane, global memory `g`,
/// group memory `p` and the sanitizer, and what it returns: the number of
/// atomics it executed.
spec fn lane_op_effect(
    op: Op,
    l0: Lane,
    l1: Lane,
    g0: GlobalArena,
    g1: GlobalArena,
    p0: GlobalArena,
    p1: GlobalArena,
    s0: Sanitizer,
    s1: Sanitizer,
    kernarg: Seq<u8>,
    r: Result<u64, FunctionalError>,
) -> bool {
    match op {
        Op::LoadGlobal { dst, addr, ty } => p1 == p0 && load_effect(
            AddrSpace::Global,
            dst,
            addr,
            ty,
            l0,
            l1,
            g0,
            g1,
            s0,
            s1,
            r,
        ),
        Op::LoadGroup { dst, addr, ty } => g1 == g0 && load_effect(
            AddrSpace::Group,
            dst,
            addr,
            ty,
            l0,
            l1,
            p0,
            p1,
            s0,
            s1,
            r,
        ),
        Op::StoreGlobal { addr, src, ty } => p1 == p0 && store_effect(
            AddrSpace::Global,
            addr,
            src,
            ty,
            l0,
            l1,
            g0,
            g1,
            s0,
            s1,
            r,
        ),
        Op::StoreGroup { addr, src, ty } => g1 == g0 && store_effect(
            AddrSpace::Group,
            addr,
            src,
            ty,
            l0,
            l1,
            p0,
            p1,
            s0,
            s1,
            r,
        ),
        Op::AtomicAdd { dst, addr, src, space, .. } => match space {
            AddrSpace::Global => p1 == p0 && atomic_effect(space, dst, addr, src, l0, l1, g0, g1, s0, s1, r),
            AddrSpace::Group => g1 == g0 && atomic_effect(space, dst, addr, src, l0, l1, p0, p1, s0, s1, r),
        },
        Op::Barrier => r is Err && r->Err_0 is Internal && l1 == l0 && g1 == g0 && p1 == p0 && s1 == s0,
        Op::If { .. } => r is Err && r->Err_0 is Internal && l1 == l0 && g1 == g0 && p1 == p0 && s1 == s0,
        Op::While { .. } => r is Err && r->Err_0 is Internal && l1 == l0 && g1 == g0 && p1 == p0 && s1 == s0,
        Op::Ret => r is Err && r->Err_0 is Internal && l1 == l0 && g1 == g0 && p1 == p0 && s1 == s0,
        _ => g1 == g0 && p1 == p0 && s1 == s0 && match register_op_result(op, l0, kernarg) {
            Ok(v) => r == Ok::<u64, FunctionalError>(0) && same_ids(l0, l1) && regs_set(
                l0.regs,
                l1.regs,
                op_dst(op)@,
                v,
            ),
            Err(e) => r == Err::<u64, FunctionalError>(e) && l1 == l0,
        },
    }
}

/// The value of register `name`, or the undefined-register error.
fn get_reg(regs: &Registers, name: &String) -> (r: Result<i64, FunctionalError>)
    ensures
        match regs.get(name@) {
            Some(v) => r == Ok::<i64, FunctionalError>(v),
            None => r == Err::<i64, FunctionalError>(FunctionalError::UndefinedReg { name: *name }),
        },
{
    match regs.lookup(name.as_str()) {
        Some(v) => Ok(v),
        None => Err(FunctionalError::UndefinedReg { name: name.clone() }),
    }
}

/// A value as its type keeps it.
fn narrow(v: i64, ty: TypeId) -> (r: i64)
    ensures
        r == narrow_spec(v, ty),
{
    match ty {
        TypeId::I32 => (v as i32) as i64,
        TypeId::U32 => (v as u32) as i64,
        TypeId::U64 => v,
    }
}

/// The value a two-operand op computes.
fn binop(op: &Op, a: i64, b: i64) -> (r: i64)
    ensures
        r == binop_result(*op, a, b),
{
    match op {
        Op::Add { ty, .. } => narrow(a.wrapping_add(b), *ty),
        Op::Sub { ty, .. } => narrow(a.wrapping_sub(b), *ty),
        Op::Mul { ty, .. } => narrow(a.wrapping_mul(b), *ty),
        Op::CmpEq { ty, .. } => if narrow(a, *ty) == narrow(b, *ty) {
            1
        } else {
            0
        },
        Op::CmpNe { ty, .. } => if narrow(a, *ty) != narrow(b, *ty) {
            1
        } else {
            0
        },
        Op::And { ty, .. } => match ty {
            TypeId::I32 => ((a as i32) & (b as i32)) as i64,
            TypeId::U32 => ((a as u32) & (b as u32)) as i64,
            TypeId::U64 => ((a as u64) & (b as u64)) as i64,
        },
        _ => 0,
    }
}

/// Atomic add at `a` of arena `m`: returns the previous 32-bit value.
fn atomic_add_at(m: &mut GlobalArena, a: u64, v: i64) -> (r: Result<i64, FunctionalError>)
    ensures
        match load_spec(old(m)@, a, TypeId::I32) {
            Some(old_v) => r == Ok::<i64, FunctionalError>(old_v) && final(m)@ == store_spec(
                old(m)@,
                a,
                TypeId::I32,
                atomic_sum(old_v, v),
            ),
            None => r == Err::<i64, FunctionalError>(
                FunctionalError::Bounds { addr: a, size: 4, arena_len: old(m)@.len() as usize },
            ) && *final(m) == *old(m),
        },
{
    let old_v = m.load(a, TypeId::I32)?;
    let newv = ((old_v as i32).wrapping_add(v as i32)) as i64;
    let st = m.store(a, TypeId::I32, newv);
    assert(st is Ok);
    Ok(old_v)
}

/// The registers of a file as a map from names to values.
spec fn regs_map(r: Registers) -> Map<Seq<char>, i64> {
    Map::new(|n: Seq<char>| r.get(n) is Some, |n: Seq<char>| r.get(n)->Some_0)
}

/// The models of a sequence of lanes.
spec fn models(lanes: Seq<Lane>) -> Seq<LaneModel> {
    lanes.map_values(|l: Lane| lane_model(l))
}

/// The model of lanes with both memories.
spec fn mach(lanes: Seq<Lane>, g: Seq<u8>, p: Seq<u8>) -> MachineModel {
    MachineModel { lanes: models(lanes), global: g, group: p }
}

/// The model of a lane: the same ids and its registers as a map.
spec fn lane_model(l: Lane) -> LaneModel {
    LaneModel {
        global: l.global,
        local: l.local,
        wg: l.wg,
        wave_id: l.wave_id,
        lane_id: l.lane_id,
        wave_size: l.wave_size,
        flat: l.flat,
        regs: regs_map(l.regs),
    }
}

/// A register of the model is the register of the lane.
proof fn lemma_reg_model(l: Lane, n: String)
    ensures
        reg(lane_model(l), n) == l.regs.get(n@),
{
}

/// Binding a register moves the model by the same binding.
proof fn lemma_regs_set_model(l0: Lane, l1: Lane, k: String, v: i64)
    requires
        same_ids(l0, l1),
        regs_set(l0.regs, l1.regs, k@, v),
    ensures
        lane_model(l1) == with_reg(lane_model(l0), k, v),
{
    assert(regs_map(l1.regs) =~= regs_map(l0.regs).insert(k@, v));
}

/// A lane op that succeeds does what the model's lane step does.
proof fn lemma_lane_op_model(
    op: Op,
    l0: Lane,
    l1: Lane,
    g0: GlobalArena,
    g1: GlobalArena,
    p0: GlobalArena,
    p1: GlobalArena,
    s0: Sanitizer,
    s1: Sanitizer,
    kernarg: Seq<u8>,
    r: Result<u64, FunctionalError>,
)
    requires
        lane_op_effect(op, l0, l1, g0, g1, p0, p1, s0, s1, kernarg, r),
        r is Ok,
    ensures
        lane_step(op, lane_model(l0), g0@, p0@, kernarg) == Some(
            (lane_model(l1), g1@, p1@, r->Ok_0 as nat),
        ),
{
    match op {
        Op::Const { dst, .. } => lemma_regs_set_model(l0, l1, dst, l1.regs.get(dst@)->Some_0),
        Op::GlobalId { dst, .. } => lemma_regs_set_model(l0, l1, dst, l1.regs.get(dst@)->Some_0),
        Op::LocalId { dst, .. } => lemma_regs_set_model(l0, l1, dst, l1.regs.get(dst@)->Some_0),
        Op::WorkgroupId { dst, .. } => lemma_regs_set_model(l0, l1, dst, l1.regs.get(dst@)->Some_0),
        Op::LaneId { dst } => lemma_regs_set_model(l0, l1, dst, l1.regs.get(dst@)->Some_0),
        Op::WaveId { dst } => lemma_regs_set_model(l0, l1, dst, l1.regs.get(dst@)->Some_0),
        Op::WaveSize { dst } => lemma_regs_set_model(l0, l1, dst, l1.regs.get(dst@)->Some_0),
        Op::Add { dst, lhs, rhs, .. } | Op::Sub { dst, lhs, rhs, .. } | Op::Mul { dst, lhs, rhs, .. }
        | Op::CmpEq { dst, lhs, rhs, .. } | Op::CmpNe { dst, lhs, rhs, .. } | Op::And { dst, lhs, rhs, .. } => {
            lemma_reg_model(l0, lhs);
            lemma_reg_model(l0, rhs);
            lemma_regs_set_model(l0, l1, dst, l1.regs.get(dst@)->Some_0);
        },
        Op::KernargLoad { dst, .. } => lemma_regs_set_model(l0, l1, dst, l1.regs.get(dst@)->Some_0),
        Op::LoadGlobal { dst, addr, .. } | Op::LoadGroup { dst, addr, .. } => {
            lemma_reg_model(l0, addr);
            lemma_regs_set_model(l0, l1, dst, l1.regs.get(dst@)->Some_0);
        },
        Op::StoreGlobal { addr, src, .. } | Op::StoreGroup { addr, src, .. } => {
            lemma_reg_model(l0, addr);
            lemma_reg_model(l0, src);
        },
        Op::AtomicAdd { dst, addr, src, .. } => {
            lemma_reg_model(l0, addr);
            lemma_reg_model(l0, src);
            lemma_regs_set_model(l0, l1, dst, l1.regs.get(dst@)->Some_0);
        },
        _ => {},
    }
}

/// With the sanitizer off, a lane op fails only where the model's lane
/// step fails.
proof fn lemma_lane_op_ok(
    op: Op,
    l0: Lane,
    l1: Lane,
    g0: GlobalArena,
    g1: GlobalArena,
    p0: GlobalArena,
    p1: GlobalArena,
    s0: Sanitizer,
    s1: Sanitizer,
    kernarg: Seq<u8>,
    r: Result<u64, FunctionalError>,
)
    requires
        lane_op_effect(op, l0, l1, g0, g1, p0, p1, s0, s1, kernarg, r),
        lane_step(op, lane_model(l0), g0@, p0@, kernarg) is Some,
    ensures
        r is Ok || r->Err_0 is Sanitize,
        s0.mode_of() is Off ==> r is Ok,
{
    match op {
        Op::Add { lhs, rhs, .. } | Op::Sub { lhs, rhs, .. } | Op::Mul { lhs, rhs, .. } | Op::CmpEq { lhs, rhs, .. }
        | Op::CmpNe { lhs, rhs, .. } | Op::And { lhs, rhs, .. } => {
            lemma_reg_model(l0, lhs);
            lemma_reg_model(l0, rhs);
        },
        Op::LoadGlobal { addr, .. } | Op::LoadGroup { addr, .. } => {
            lemma_reg_model(l0, addr);
        },
        Op::StoreGlobal { addr, src, .. } | Op::StoreGroup { addr, src, .. } | Op::AtomicAdd { addr, src, .. } => {
            lemma_reg_model(l0, addr);
            lemma_reg_model(l0, src);
        },
        _ => {},
    }
}

/// Executes one non-control op on one lane.
#[verifier::rlimit(60)]
#[verifier::spinoff_prover]
fn exec_lane_op(
    op: &Op,
    lane: &mut Lane,
    global: &mut GlobalArena,
    group: &mut GlobalArena,
    kernarg: &[u8],
    sanitizer: &mut Sanitizer,
) -> (r: Result<u64, FunctionalError>)
    requires
        op_valid(*op, true),
    ensures
        lane_op_effect(
            *op,
            *old(lane),
            *final(lane),
            *old(global),
            *final(global),
            *old(group),
            *final(group),
            *old(sanitizer),
            *final(sanitizer),
            kernarg@,
            r,
        ),
        same_ids(*old(lane), *final(lane)),
        final(global)@.len() == old(global)@.len(),
        final(group)@.len() == old(group)@.len(),
        final(sanitizer).mode_of() == old(sanitizer).mode_of(),
        final(sanitizer).gen_of() == old(sanitizer).gen_of(),
        final(sanitizer).step_of() == old(sanitizer).step_of(),
        forall|sp: AddrSpace| #[trigger] final(sanitizer).shadow(sp).len() == old(sanitizer).shadow(sp).len(),
        old(sanitizer).mode_of() is Off ==> final(sanitizer).found() == old(sanitizer).found(),
        old(sanitizer).mode_of() is FailFast && r is Ok ==> final(sanitizer).found() == old(sanitizer).found(),
        r matches Err(FunctionalError::Sanitize(f)) ==> f.step == old(sanitizer).step_of(),
        r matches Ok(n) ==> n <= 1,
{
    let actor = WorkItemId { workgroup: lane.wg, wave: lane.wave_id, lane: lane.lane_id, flat_local: lane.flat };
    let ghost s0 = *sanitizer;
    match op {
        Op::Const { dst, ty, value } => {
            lane.regs.set(dst.as_str(), narrow(*value, *ty));
            Ok(0)
        },
        Op::GlobalId { dst, dim } => {
            let v = lane.global[*dim as usize] as i64;
            lane.regs.set(dst.as_str(), v);
            Ok(0)
        },
        Op::LocalId { dst, dim } => {
            let v = lane.local[*dim as usize] as i64;
            lane.regs.set(dst.as_str(), v);
            Ok(0)
        },
        Op::WorkgroupId { dst, dim } => {
            let v = lane.wg[*dim as usize] as i64;
            lane.regs.set(dst.as_str(), v);
            Ok(0)
        },
        Op::LaneId { dst } => {
            let v = lane.lane_id as i64;
            lane.regs.set(dst.as_str(), v);
            Ok(0)
        },
        Op::WaveId { dst } => {
            let v = lane.wave_id as i64;
            lane.regs.set(dst.as_str(), v);
            Ok(0)
        },
        Op::WaveSize { dst } => {
            let v = lane.wave_size as i64;
            lane.regs.set(dst.as_str(), v);
            Ok(0)
        },
        Op::Add { dst, lhs, rhs, .. } | Op::Sub { dst, lhs, rhs, .. } | Op::Mul { dst, lhs, rhs, .. }
        | Op::CmpEq { dst, lhs, rhs, .. } | Op::CmpNe { dst, lhs, rhs, .. } | Op::And { dst, lhs, rhs, .. } => {
            let a = get_reg(&lane.regs, lhs)?;
            let b = get_reg(&lane.regs, rhs)?;
            let v = binop(op, a, b);
            lane.regs.set(dst.as_str(), v);
            Ok(0)
        },
        Op::KernargLoad { dst, offset, ty } => {
            let v = kernarg_load(kernarg, *offset, *ty)?;
            lane.regs.set(dst.as_str(), v);
            Ok(0)
        },
        Op::LoadGlobal { dst, addr, ty } => {
            let a = get_reg(&lane.regs, addr)? as u64;
            let sr = sanitizer.on_access(AddrSpace::Global, a, *ty, false, false, actor);
            proof { lemma_access_error(s0, *sanitizer, AddrSpace::Global, a, *ty, false, false, actor, sr); }
            if let Err(e) = sr {
                return Err(e);
            }
            let v = global.load(a, *ty)?;
            lane.regs.set(dst.as_str(), v);
            Ok(0)
        },
        Op::LoadGroup { dst, addr, ty } => {
            let a = get_reg(&lane.regs, addr)? as u64;
            let sr = sanitizer.on_access(AddrSpace::Group, a, *ty, false, false, actor);
            proof { lemma_access_error(s0, *sanitizer, AddrSpace::Group, a, *ty, false, false, actor, sr); }
            if let Err(e) = sr {
                return Err(e);
            }
            let v = group.load(a, *ty)?;
            lane.regs.set(dst.as_str(), v);
            Ok(0)
        },
        Op::StoreGlobal { addr, src, ty } => {
            let a = get_reg(&lane.regs, addr)? as u64;
            let v = get_reg(&lane.regs, src)?;
            let sr = sanitizer.on_access(AddrSpace::Global, a, *ty, true, false, actor);
            proof { lemma_access_error(s0, *sanitizer, AddrSpace::Global, a, *ty, true, false, actor, sr); }
            if let Err(e) = sr {
                return Err(e);
            }
            global.store(a, *ty, v)?;
            Ok(0)
        },
        Op::StoreGroup { addr, src, ty } => {
            let a = get_reg(&lane.regs, addr)? as u64;
            let v = get_reg(&lane.regs, src)?;
            let sr = sanitizer.on_access(AddrSpace::Group, a, *ty, true, false, actor);
            proof { lemma_access_error(s0, *sanitizer, AddrSpace::Group, a, *ty, true, false, actor, sr); }
            if let Err(e) = sr {
                return Err(e);
            }
            group.store(a, *ty, v)?;
            Ok(0)
        },
        Op::AtomicAdd { dst, addr, src, space, .. } => {
            let a = get_reg(&lane.regs, addr)? as u64;
            let v = get_reg(&lane.regs, src)?;
            let sr = sanitizer.on_access(*space, a, TypeId::I32, true, true, actor);
            proof { lemma_access_error(s0, *sanitizer, *space, a, TypeId::I32, true, true, actor, sr); }
            if let Err(e) = sr {
                return Err(e);
            }
            let old_v = match space {
                AddrSpace::Global => atomic_add_at(global, a, v)?,
                AddrSpace::Group => atomic_add_at(group, a, v)?,
            };
            lane.regs.set(dst.as_str(), old_v);
            Ok(1)
        },
        Op::Barrier | Op::If { .. } | Op::While { .. } | Op::Ret => Err(
            FunctionalError::Internal(owned("unexpected control op in a lane step")),
        ),
    }
}


/// Lanes keep their ids, and lanes outside `mask` keep everything.
spec fn lanes_frame(l0: Seq<Lane>, l1: Seq<Lane>, mask: Seq<bool>) -> bool {
    &&& l1.len() == l0.len()
    &&& forall|i: int| 0 <= i < l0.len() ==> #[trigger] same_ids(l0[i], l1[i])
    &&& forall|i: int| 0 <= i < l0.len() && !mask[i] ==> #[trigger] l1[i] == l0[i]
}

/// The sanitizer keeps its mode, generation and shadow sizes, and with
/// `Off` its findings.
spec fn sanitizer_frame(s0: Sanitizer, s1: Sanitizer) -> bool {
    &&& s1.mode_of() == s0.mode_of()
    &&& s1.gen_of() == s0.gen_of()
    &&& forall|sp: AddrSpace| #[trigger] s1.shadow(sp).len() == s0.shadow(sp).len()
    &&& s0.mode_of() is Off ==> s1.found() == s0.found()
}

/// Why a run whose model completes may still fail: a sanitizer finding
/// (only with the sanitizer on), or a stop or an error of an observer that
/// is not passive.
pub open spec fn outcome_explained<T, O: ExecObserver>(r: Result<T, FunctionalError>, s: Sanitizer, o: O) -> bool {
    ||| r is Ok
    ||| r->Err_0 is Sanitize && !(s.mode_of() is Off)
    ||| !o.passive() && (r->Err_0 is DebugBreak || o.faults().contains(r->Err_0))
}

/// A sanitizer finding that stopped a run was made at a lane step, and
/// lane steps count from 1.
pub open spec fn finding_after_step<T>(r: Result<T, FunctionalError>) -> bool {
    r matches Err(FunctionalError::Sanitize(f)) ==> f.step >= 1
}

/// With `FailFast` the sanitizer has found nothing new.
pub open spec fn failfast_clean(s0: Sanitizer, s1: Sanitizer) -> bool {
    s0.mode_of() is FailFast ==> s1.found() == s0.found()
}

/// Lanes whose register `cond` is non-zero (`want`) or zero (`!want`) among
/// the active ones.
fn select_lanes(lanes: &Vec<Lane>, mask: &Vec<bool>, cond: &String, want: bool) -> (r: Result<
    Vec<bool>,
    FunctionalError,
>)
    requires
        mask@.len() == lanes@.len(),
    ensures
        r matches Ok(m) ==> m@.len() == lanes@.len() && forall|i: int|
            0 <= i < m@.len() && #[trigger] m@[i] ==> mask@[i],
        r matches Ok(m) ==> select_mask(models(lanes@), mask@, *cond, want) == Some(m@),
        r matches Err(e) ==> e is UndefinedReg && select_mask(models(lanes@), mask@, *cond, want) is None,
{
    let ghost ms = models(lanes@);
    let mut out: Vec<bool> = Vec::new();
    let mut i: usize = 0;
    while i < lanes.len()
        invariant
            mask@.len() == lanes@.len(),
            ms == models(lanes@),
            i <= lanes@.len(),
            out@.len() == i,
            forall|j: int| 0 <= j < i && #[trigger] out@[j] ==> mask@[j],
            forall|j: int| 0 <= j < i && mask@[j] ==> #[trigger] reg(ms[j], *cond) is Some,
            forall|j: int|
                0 <= j < i ==> #[trigger] out@[j] == (mask@[j] && ((reg(ms[j], *cond)->Some_0 != 0) == want)),
        decreases lanes@.len() - i,
    {
        proof { lemma_reg_model(lanes@[i as int], *cond); }
        if mask[i] {
            let c = match get_reg(&lanes[i].regs, cond) {
                Ok(c) => c,
                Err(e) => {
                    assert(!(reg(ms[i as int], *cond) is Some));
                    return Err(e);
                },
            };
            out.push((c != 0) == want);
        } else {
            out.push(false);
        }
        i = i + 1;
    }
    assert(out@ =~= Seq::new(ms.len(), |j: int| mask@[j] && ((reg(ms[j], *cond)->Some_0 != 0) == want)));
    Ok(out)
}

/// Executes `ops[lo..hi]` on the lanes selected by `mask`, op by op over
/// the lanes in index order, within `budget` lane steps. Returns the steps
/// taken and the atomics executed. Lanes outside the mask are untouched. A
/// loop iteration that executes no lane step can change nothing, so it
/// would repeat forever: it is reported as exceeding the budget.
#[verifier::rlimit(80)]
#[verifier::spinoff_prover]
fn exec_ops<O: ExecObserver>(
    ops: &Vec<Op>,
    lo: usize,
    hi: usize,
    lanes: &mut Vec<Lane>,
    mask: &Vec<bool>,
    global: &mut GlobalArena,
    group: &mut GlobalArena,
    kernarg: &[u8],
    budget: u64,
    stop_at_ret: bool,
    sanitizer: &mut Sanitizer,
    observer: &mut O,
) -> (r: Result<(u64, u64), FunctionalError>)
    requires
        lo <= hi <= ops@.len(),
        forall|k: int| lo <= k < hi ==> #[trigger] op_valid(ops@[k], true),
        mask@.len() == old(lanes)@.len(),
    ensures
        lanes_frame(old(lanes)@, final(lanes)@, mask@),
        final(global)@.len() == old(global)@.len(),
        final(group)@.len() == old(group)@.len(),
        sanitizer_frame(*old(sanitizer), *final(sanitizer)),
        r is Ok ==> failfast_clean(*old(sanitizer), *final(sanitizer)),
        finding_after_step(r),
        r matches Ok((s, a)) ==> s <= budget && a <= s,
        r matches Ok((s, a)) ==> sem_seq(
            ops@,
            lo as int,
            hi as int,
            mask@,
            mach(old(lanes)@, old(global)@, old(group)@),
            budget as nat,
            stop_at_ret,
            kernarg@,
        ) == Some((mach(final(lanes)@, final(global)@, final(group)@), s as nat, a as nat)),
        lo == hi ==> r == Ok::<(u64, u64), FunctionalError>((0, 0)) && final(lanes)@ == old(lanes)@,
        old(observer).passive() ==> final(observer).passive(),
        final(observer).faults() == old(observer).faults(),
        final(observer).settings() == old(observer).settings(),
        r matches Err(FunctionalError::DebugBreak) ==> final(observer).stopped(),
        sem_seq(
            ops@,
            lo as int,
            hi as int,
            mask@,
            mach(old(lanes)@, old(global)@, old(group)@),
            budget as nat,
            stop_at_ret,
            kernarg@,
        ) is Some ==> outcome_explained(r, *old(sanitizer), *old(observer)),
    decreases ops@,
{
    let mut steps: u64 = 0;
    let mut atomics: u64 = 0;
    let mut k: usize = lo;
    let ghost m0 = mach(lanes@, global@, group@);
    let ghost total = sem_seq(
        ops@,
        lo as int,
        hi as int,
        mask@,
        m0,
        budget as nat,
        stop_at_ret,
        kernarg@,
    ) is Some;
    proof {
        lemma_after_steps_zero(sem_seq(ops@, lo as int, hi as int, mask@, m0, budget as nat, stop_at_ret, kernarg@));
    }
    while k < hi
        invariant
            lo <= k <= hi <= ops@.len(),
            forall|j: int| lo <= j < hi ==> #[trigger] op_valid(ops@[j], true),
            mask@.len() == old(lanes)@.len(),
            lanes_frame(old(lanes)@, lanes@, mask@),
            global@.len() == old(global)@.len(),
            group@.len() == old(group)@.len(),
            sanitizer_frame(*old(sanitizer), *sanitizer),
            failfast_clean(*old(sanitizer), *sanitizer),
            steps <= budget,
            atomics <= steps,
            k == lo ==> steps == 0 && atomics == 0 && lanes@ == old(lanes)@,
            m0 == mach(old(lanes)@, old(global)@, old(group)@),
            old(observer).passive() ==> observer.passive(),
            observer.faults() == old(observer).faults(),
            observer.settings() == old(observer).settings(),
            total == (sem_seq(
                ops@,
                lo as int,
                hi as int,
                mask@,
                m0,
                budget as nat,
                stop_at_ret,
                kernarg@,
            ) is Some),
            sem_seq(ops@, lo as int, hi as int, mask@, m0, budget as nat, stop_at_ret, kernarg@) == after_steps(
                steps as nat,
                atomics as nat,
                sem_seq(
                    ops@,
                    k as int,
                    hi as int,
                    mask@,
                    mach(lanes@, global@, group@),
                    (budget - steps) as nat,
                    stop_at_ret,
                    kernarg@,
                ),
            ),
        decreases hi - k,
    {
        let op = &ops[k];
        assert(op_valid(ops@[k as int], true));
        let ghost mk = mach(lanes@, global@, group@);
        let ghost sk = steps;
        let ghost ak = atomics;
        let ghost bk = (budget - steps) as nat;
        assert(total ==> sem_seq(ops@, k as int, hi as int, mask@, mk, bk, stop_at_ret, kernarg@) is Some);
        match op {
            Op::Ret => {
                if stop_at_ret {
                    assert(sem_seq(ops@, k as int, hi as int, mask@, mk, bk, stop_at_ret, kernarg@) == Some(
                        (mk, 0nat, 0nat),
                    ));
                    return Ok((steps, atomics));
                }
                assert(sem_seq(ops@, k as int, hi as int, mask@, mk, bk, stop_at_ret, kernarg@) == sem_seq(
                    ops@,
                    k + 1,
                    hi as int,
                    mask@,
                    mk,
                    bk,
                    stop_at_ret,
                    kernarg@,
                ));
            },
            Op::Barrier => {
                return Err(FunctionalError::Internal(owned("barrier must be handled by the segment splitter")));
            },
            Op::If { cond, then_body, else_body } => {
                proof {
                    lemma_ops_valid_each(then_body@, false);
                    lemma_ops_valid_each(else_body@, false);
                    assert forall|j: int| 0 <= j < then_body@.len() implies #[trigger] op_valid(then_body@[j], true) by {
                        lemma_op_valid_weaken(then_body@[j]);
                    }
                    assert forall|j: int| 0 <= j < else_body@.len() implies #[trigger] op_valid(else_body@[j], true) by {
                        lemma_op_valid_weaken(else_body@[j]);
                    }
                }
                let then_mask = select_lanes(lanes, mask, cond, true)?;
                let else_mask = select_lanes(lanes, mask, cond, false)?;
                assert(decreases_to!(ops@ => ops@[k as int]));
                let ghost l_before = lanes@;
                let res1 = exec_ops(
                    then_body,
                    0,
                    then_body.len(),
                    lanes,
                    &then_mask,
                    global,
                    group,
                    kernarg,
                    budget - steps,
                    false,
                    sanitizer,
                    observer,
                );
                proof { lemma_frame_step(old(lanes)@, l_before, lanes@, mask@, then_mask@); }
                let (s1, a1) = match res1 {
                    Ok(p) => p,
                    Err(e) => return Err(e),
                };
                let ghost m1 = mach(lanes@, global@, group@);
                steps = steps + s1;
                atomics = atomics + a1;
                let ghost l_mid = lanes@;
                let res2 = exec_ops(
                    else_body,
                    0,
                    else_body.len(),
                    lanes,
                    &else_mask,
                    global,
                    group,
                    kernarg,
                    budget - steps,
                    false,
                    sanitizer,
                    observer,
                );
                proof { lemma_frame_step(old(lanes)@, l_mid, lanes@, mask@, else_mask@); }
                let (s2, a2) = match res2 {
                    Ok(p) => p,
                    Err(e) => return Err(e),
                };
                steps = steps + s2;
                atomics = atomics + a2;
                proof {
                    assert forall|i: int| 0 <= i < old(lanes)@.len() && !mask@[i] implies #[trigger] lanes@[i]
                        == old(lanes)@[i] by {
                        assert(!then_mask@[i]);
                        assert(!else_mask@[i]);
                    }
                    assert forall|i: int| 0 <= i < old(lanes)@.len() implies #[trigger] same_ids(
                        old(lanes)@[i],
                        lanes@[i],
                    ) by {
                        assert(same_ids(l_before[i], l_mid[i]));
                        assert(same_ids(l_mid[i], lanes@[i]));
                    }
                    assert(sem_seq(ops@, k as int, hi as int, mask@, mk, bk, stop_at_ret, kernarg@) == after_steps(
                        (s1 + s2) as nat,
                        (a1 + a2) as nat,
                        sem_seq(
                            ops@,
                            k + 1,
                            hi as int,
                            mask@,
                            mach(lanes@, global@, group@),
                            (budget - steps) as nat,
                            stop_at_ret,
                            kernarg@,
                        ),
                    ));
                }
            },
            Op::While { cond, body } => {
                proof {
                    lemma_ops_valid_each(body@, false);
                    assert forall|j: int| 0 <= j < body@.len() implies #[trigger] op_valid(body@[j], true) by {
                        lemma_op_valid_weaken(body@[j]);
                    }
                    lemma_after_steps_zero(sem_while(*cond, body@, mask@, mk, bk, kernarg@));
                }
                assert(decreases_to!(ops@ => ops@[k as int]));
                assert(decreases_to!(ops@ => body@));
                loop
                    invariant
                        decreases_to!(ops@ => body@),
                        lo <= k < hi <= ops@.len(),
                        mask@.len() == old(lanes)@.len(),
                        forall|j: int| 0 <= j < body@.len() ==> #[trigger] op_valid(body@[j], true),
                        lanes_frame(old(lanes)@, lanes@, mask@),
                        global@.len() == old(global)@.len(),
                        group@.len() == old(group)@.len(),
                        sanitizer_frame(*old(sanitizer), *sanitizer),
                        failfast_clean(*old(sanitizer), *sanitizer),
                        steps <= budget,
                        atomics <= steps,
                        k == lo ==> steps == 0 ==> lanes@ == old(lanes)@,
                        old(observer).passive() ==> observer.passive(),
                        observer.faults() == old(observer).faults(),
                        observer.settings() == old(observer).settings(),
                        total ==> sem_while(*cond, body@, mask@, mk, bk, kernarg@) is Some,
                        total == (sem_seq(
                            ops@,
                            lo as int,
                            hi as int,
                            mask@,
                            mach(old(lanes)@, old(global)@, old(group)@),
                            budget as nat,
                            stop_at_ret,
                            kernarg@,
                        ) is Some),
                        sk <= steps,
                        ak <= atomics,
                        bk == budget - sk,
                        sem_while(*cond, body@, mask@, mk, bk, kernarg@) == after_steps(
                            (steps - sk) as nat,
                            (atomics - ak) as nat,
                            sem_while(
                                *cond,
                                body@,
                                mask@,
                                mach(lanes@, global@, group@),
                                (budget - steps) as nat,
                                kernarg@,
                            ),
                        ),
                    ensures
                        sem_while(*cond, body@, mask@, mk, bk, kernarg@) == Some(
                            (mach(lanes@, global@, group@), (steps - sk) as nat, (atomics - ak) as nat),
                        ),
                    decreases budget - steps,
                {
                    proof {
                        if total {
                            lemma_after_steps_some(
                                (steps - sk) as nat,
                                (atomics - ak) as nat,
                                sem_while(
                                    *cond,
                                    body@,
                                    mask@,
                                    mach(lanes@, global@, group@),
                                    (budget - steps) as nat,
                                    kernarg@,
                                ),
                            );
                        }
                    }
                    let iter_mask = match select_lanes(lanes, mask, cond, true) {
                        Ok(m) => m,
                        Err(e) => {
                            proof {
                                if total {
                                    assert(sem_while(
                                        *cond,
                                        body@,
                                        mask@,
                                        mach(lanes@, global@, group@),
                                        (budget - steps) as nat,
                                        kernarg@,
                                    ) is Some);
                                    assert(select_mask(models(lanes@), mask@, *cond, true) is None);
                                }
                            }
                            return Err(e);
                        },
                    };
                    let mut any = false;
                    let mut i: usize = 0;
                    while i < iter_mask.len()
                        invariant
                            i <= iter_mask@.len(),
                            any <==> exists|j: int| 0 <= j < i && #[trigger] iter_mask@[j],
                        decreases iter_mask@.len() - i,
                    {
                        if iter_mask[i] {
                            any = true;
                        }
                        i = i + 1;
                    }
                    if !any {
                        assert(!any_active(iter_mask@));
                        break;
                    }
                    let ghost l_before = lanes@;
                    let ghost mc = mach(lanes@, global@, group@);
                    let ghost sc = steps;
                    let ghost ac = atomics;
                    assert(decreases_to!(ops@ => body@));
                    let res = exec_ops(
                        body,
                        0,
                        body.len(),
                        lanes,
                        &iter_mask,
                        global,
                        group,
                        kernarg,
                        budget - steps,
                        false,
                        sanitizer,
                        observer,
                    );
                    proof { lemma_frame_step(old(lanes)@, l_before, lanes@, mask@, iter_mask@); }
                    proof {
                        if total {
                            assert(any_active(iter_mask@));
                            assert(sem_seq(body@, 0, body@.len() as int, iter_mask@, mc, (budget - sc) as nat, false, kernarg@) is Some);
                        }
                    }
                    let (s, a) = match res {
                        Ok(p) => p,
                        Err(e) => return Err(e),
                    };
                    if s == 0 {
                        return Err(FunctionalError::StepBudgetExceeded { steps });
                    }
                    steps = steps + s;
                    atomics = atomics + a;
                    proof {
                        assert forall|i: int| 0 <= i < old(lanes)@.len() && !mask@[i] implies #[trigger] lanes@[i]
                            == old(lanes)@[i] by {
                            assert(!iter_mask@[i]);
                        }
                        assert forall|i: int| 0 <= i < old(lanes)@.len() implies #[trigger] same_ids(
                            old(lanes)@[i],
                            lanes@[i],
                        ) by {
                            assert(same_ids(l_before[i], lanes@[i]));
                        }
                        assert(any_active(iter_mask@));
                        assert(sem_while(*cond, body@, mask@, mc, (budget - sc) as nat, kernarg@) == after_steps(
                            s as nat,
                            a as nat,
                            sem_while(
                                *cond,
                                body@,
                                mask@,
                                mach(lanes@, global@, group@),
                                (budget - steps) as nat,
                                kernarg@,
                            ),
                        ));
                        lemma_after_steps_add(
                            (sc - sk) as nat,
                            (ac - ak) as nat,
                            s as nat,
                            a as nat,
                            sem_while(
                                *cond,
                                body@,
                                mask@,
                                mach(lanes@, global@, group@),
                                (budget - steps) as nat,
                                kernarg@,
                            ),
                        );
                    }
                }
                proof {
                    assert(sem_seq(ops@, k as int, hi as int, mask@, mk, bk, stop_at_ret, kernarg@) == after_steps(
                        (steps - sk) as nat,
                        (atomics - ak) as nat,
                        sem_seq(
                            ops@,
                            k + 1,
                            hi as int,
                            mask@,
                            mach(lanes@, global@, group@),
                            (budget - steps) as nat,
                            stop_at_ret,
                            kernarg@,
                        ),
                    ));
                }
            },
            _ => {
                let mut i: usize = 0;
                proof { lemma_after_steps_zero(sem_lanes(*op, 0, mask@, mk, bk, kernarg@)); }
                while i < lanes.len()
                    invariant
                        lo <= k < hi <= ops@.len(),
                        op == ops@[k as int],
                        op_valid(*op, true),
                        !(op is Ret || op is Barrier || op is If || op is While),
                        mask@.len() == old(lanes)@.len(),
                        lanes_frame(old(lanes)@, lanes@, mask@),
                        global@.len() == old(global)@.len(),
                        group@.len() == old(group)@.len(),
                        sanitizer_frame(*old(sanitizer), *sanitizer),
                        failfast_clean(*old(sanitizer), *sanitizer),
                        steps <= budget,
                        atomics <= steps,
                        i <= lanes@.len(),
                        old(observer).passive() ==> observer.passive(),
                        observer.faults() == old(observer).faults(),
                        observer.settings() == old(observer).settings(),
                        total ==> sem_lanes(*op, 0, mask@, mk, bk, kernarg@) is Some,
                        total == (sem_seq(
                            ops@,
                            lo as int,
                            hi as int,
                            mask@,
                            mach(old(lanes)@, old(global)@, old(group)@),
                            budget as nat,
                            stop_at_ret,
                            kernarg@,
                        ) is Some),
                        sk <= steps,
                        ak <= atomics,
                        bk == budget - sk,
                        sem_lanes(*op, 0, mask@, mk, bk, kernarg@) == after_steps(
                            (steps - sk) as nat,
                            (atomics - ak) as nat,
                            sem_lanes(
                                *op,
                                i as int,
                                mask@,
                                mach(lanes@, global@, group@),
                                (budget - steps) as nat,
                                kernarg@,
                            ),
                        ),
                    decreases lanes@.len() - i,
                {
                    let ghost mi = mach(lanes@, global@, group@);
                    let ghost si = steps;
                    let ghost ai = atomics;
                    if mask[i] {
                        proof {
                            if total {
                                lemma_after_steps_some(
                                    (si - sk) as nat,
                                    (ai - ak) as nat,
                                    sem_lanes(*op, i as int, mask@, mi, (budget - si) as nat, kernarg@),
                                );
                                assert(sem_lanes(*op, i as int, mask@, mi, (budget - si) as nat, kernarg@) is Some);
                            }
                        }
                        if steps >= budget {
                            return Err(FunctionalError::StepBudgetExceeded { steps: steps.saturating_add(1) });
                        }
                        steps = steps + 1;
                        sanitizer.tick();
                        let actor = WorkItemId {
                            workgroup: lanes[i].wg,
                            wave: lanes[i].wave_id,
                            lane: lanes[i].lane_id,
                            flat_local: lanes[i].flat,
                        };
                        let ghost l_before = lanes@;
                        let ghost g_before = *global;
                        let ghost p_before = *group;
                        let ghost s_before = *sanitizer;
                        let res = exec_lane_op(op, &mut lanes[i], global, group, kernarg, sanitizer);
                        proof {
                            assert(same_ids(l_before[i as int], lanes@[i as int]));
                            assert(forall|j: int| 0 <= j < lanes@.len() && j != i ==> lanes@[j] == l_before[j]);
                            lemma_frame_update(old(lanes)@, l_before, lanes@, mask@, i as int);
                        }
                        proof {
                            if total {
                                assert(sem_lanes(*op, i as int, mask@, mi, (budget - si) as nat, kernarg@) is Some);
                                assert(models(l_before)[i as int] == lane_model(l_before[i as int]));
                                lemma_lane_op_ok(
                                    *op,
                                    l_before[i as int],
                                    lanes@[i as int],
                                    g_before,
                                    *global,
                                    p_before,
                                    *group,
                                    s_before,
                                    *sanitizer,
                                    kernarg@,
                                    res,
                                );
                            }
                        }
                        let at = match res {
                            Ok(n) => n,
                            Err(e) => return Err(e),
                        };
                        proof {
                            lemma_lane_op_model(
                                *op,
                                l_before[i as int],
                                lanes@[i as int],
                                g_before,
                                *global,
                                p_before,
                                *group,
                                s_before,
                                *sanitizer,
                                kernarg@,
                                res,
                            );
                            assert(models(lanes@) =~= models(l_before).update(i as int, lane_model(lanes@[i as int])));
                            assert(mach(lanes@, global@, group@) == after_lane(
                                mi,
                                i as int,
                                lane_model(lanes@[i as int]),
                                global@,
                                group@,
                            ));
                            assert(sem_lanes(*op, i as int, mask@, mi, (budget - si) as nat, kernarg@) == after_steps(
                                1,
                                at as nat,
                                sem_lanes(
                                    *op,
                                    i + 1,
                                    mask@,
                                    mach(lanes@, global@, group@),
                                    (budget - steps) as nat,
                                    kernarg@,
                                ),
                            ));
                        }
                        atomics = atomics + at;
                        let action = observer.on_lane_step(
                            sanitizer.step_count(),
                            sanitizer.generation(),
                            actor,
                            op,
                            &lanes[i].regs,
                        )?;
                        if matches!(action, DebugAction::Break) {
                            return Err(FunctionalError::DebugBreak);
                        }
                        proof {
                            lemma_after_steps_add(
                                (si - sk) as nat,
                                (ai - ak) as nat,
                                1,
                                at as nat,
                                sem_lanes(
                                    *op,
                                    i + 1,
                                    mask@,
                                    mach(lanes@, global@, group@),
                                    (budget - steps) as nat,
                                    kernarg@,
                                ),
                            );
                        }
                    }
                    i = i + 1;
                }
                proof {
                    assert(sem_lanes(*op, i as int, mask@, mach(lanes@, global@, group@), (budget - steps) as nat, kernarg@)
                        == Some((mach(lanes@, global@, group@), 0nat, 0nat)));
                    assert(sem_seq(ops@, k as int, hi as int, mask@, mk, bk, stop_at_ret, kernarg@) == after_steps(
                        (steps - sk) as nat,
                        (atomics - ak) as nat,
                        sem_seq(
                            ops@,
                            k + 1,
                            hi as int,
                            mask@,
                            mach(lanes@, global@, group@),
                            (budget - steps) as nat,
                            stop_at_ret,
                            kernarg@,
                        ),
                    ));
                }
            },
        }
        proof {
            lemma_after_steps_add(
                sk as nat,
                ak as nat,
                (steps - sk) as nat,
                (atomics - ak) as nat,
                sem_seq(
                    ops@,
                    k + 1,
                    hi as int,
                    mask@,
                    mach(lanes@, global@, group@),
                    (budget - steps) as nat,
                    stop_at_ret,
                    kernarg@,
                ),
            );
        }
        k = k + 1;
    }
    proof {
        assert(sem_seq(ops@, k as int, hi as int, mask@, mach(lanes@, global@, group@), (budget - steps) as nat, stop_at_ret, kernarg@)
            == Some((mach(lanes@, global@, group@), 0nat, 0nat)));
    }
    Ok((steps, atomics))
}

/// Running a sub-mask after a mask keeps the frame of the mask.
proof fn lemma_frame_step(l0: Seq<Lane>, l1: Seq<Lane>, l2: Seq<Lane>, mask: Seq<bool>, sub: Seq<bool>)
    requires
        lanes_frame(l0, l1, mask),
        lanes_frame(l1, l2, sub),
        mask.len() == l0.len(),
        sub.len() == l0.len(),
        forall|i: int| 0 <= i < sub.len() && #[trigger] sub[i] ==> mask[i],
    ensures
        lanes_frame(l0, l2, mask),
{
    assert forall|i: int| 0 <= i < l0.len() implies #[trigger] same_ids(l0[i], l2[i]) by {
        assert(same_ids(l0[i], l1[i]));
        assert(same_ids(l1[i], l2[i]));
    }
    assert forall|i: int| 0 <= i < l0.len() && !mask[i] implies #[trigger] l2[i] == l0[i] by {
        assert(!sub[i]);
        assert(l2[i] == l1[i]);
    }
}

/// Updating an active lane without changing its ids keeps the frame.
proof fn lemma_frame_update(l0: Seq<Lane>, l1: Seq<Lane>, l2: Seq<Lane>, mask: Seq<bool>, i: int)
    requires
        lanes_frame(l0, l1, mask),
        mask.len() == l0.len(),
        0 <= i < l1.len(),
        mask[i],
        l2.len() == l1.len(),
        same_ids(l1[i], l2[i]),
        forall|j: int| 0 <= j < l2.len() && j != i ==> l2[j] == l1[j],
    ensures
        lanes_frame(l0, l2, mask),
{
    assert forall|j: int| 0 <= j < l0.len() implies #[trigger] same_ids(l0[j], l2[j]) by {
        assert(same_ids(l0[j], l1[j]));
        if j != i {
            assert(l2[j] == l1[j]);
        }
    }
    assert forall|j: int| 0 <= j < l0.len() && !mask[j] implies #[trigger] l2[j] == l0[j] by {
        assert(l1[j] == l0[j]);
        assert(l2[j] == l1[j]);
    }
}

/// An op valid where barriers are forbidden is valid anywhere.
proof fn lemma_op_valid_weaken(op: Op)
    requires
        op_valid(op, false),
    ensures
        op_valid(op, true),
{
}


/// A work-item id component stays inside the grid.
proof fn lemma_gid_bound(w: int, n: int, g: int, l: int)
    requires
        n > 0,
        0 <= w < g / n,
        0 <= l < n,
        g % n == 0,
        0 <= g,
    ensures
        w * n + l < g,
{
    vstd::arithmetic::div_mod::lemma_fundamental_div_mod(g, n);
    assert(w * n + l < g) by (nonlinear_arith)
        requires
            n > 0,
            0 <= w < g / n,
            0 <= l < n,
            g % n == 0,
            0 <= g,
            g == (g / n) * n,
    {
        assert(w <= g / n - 1);
        assert(w * n <= (g / n - 1) * n);
    }
}

/// Flat index of a local id inside the workgroup.
fn flat_local(local: [u32; 3], wg: [u32; 3]) -> (r: u32)
    requires
        local[0] < wg[0],
        local[1] < wg[1],
        local[2] < wg[2],
        dims_product(wg) <= MAX_WORKGROUP_FLAT,
    ensures
        r == local[0] + local[1] * wg[0] + local[2] * wg[0] * wg[1],
        r < dims_product(wg),
{
    let x = local[0] as u64;
    let y = local[1] as u64;
    let z = local[2] as u64;
    let a = wg[0] as u64;
    let b = wg[1] as u64;
    let c = wg[2] as u64;
    assert(x + y * a + z * a * b < a * b * c) by (nonlinear_arith)
        requires
            x < a,
            y < b,
            z < c,
    {
        assert(x + y * a < a * (y + 1));
        assert(a * (y + 1) <= a * b);
        assert(z * a * b + a * b <= a * b * c);
    }
    assert(a * b * c <= 1024);
    assert(y * a <= 1024) by (nonlinear_arith)
        requires
            y < b,
            a * b * c <= 1024,
            c >= 1,
            x < a,
    {
        assert(y * a <= b * a);
        assert(b * a <= a * b * c);
    }
    assert(z * a * b <= 1024 && z * a <= 1024) by (nonlinear_arith)
        requires
            z < c,
            a * b * c <= 1024,
            x < a,
            y < b,
    {
        assert(z * a * b <= c * a * b);
        assert(z * a <= z * a * b);
    }
    (x + y * a + z * a * b) as u32
}

/// Local id of a flat index inside the workgroup.
fn unflat_local(flat: u32, wg: [u32; 3]) -> (r: [u32; 3])
    requires
        wg[0] > 0,
        wg[1] > 0,
        wg[2] > 0,
        flat < dims_product(wg),
    ensures
        r[0] < wg[0],
        r[1] < wg[1],
        r[2] < wg[2],
        flat == r[0] + r[1] * wg[0] + r[2] * wg[0] * wg[1],
        r[0] == flat % wg[0],
        r[1] == (flat / wg[0]) % wg[1],
        r[2] == (flat / wg[0]) / wg[1],
{
    let x = flat % wg[0];
    let t = flat / wg[0];
    let y = t % wg[1];
    let z = t / wg[1];
    proof {
        let a = wg[0] as int;
        let b = wg[1] as int;
        let c = wg[2] as int;
        let f = flat as int;
        let xi = x as int;
        let ti = t as int;
        let yi = y as int;
        let zi = z as int;
        assert(f == xi + ti * a) by (nonlinear_arith)
            requires
                a > 0,
                xi == f % a,
                ti == f / a,
        ;
        assert(ti == yi + zi * b) by (nonlinear_arith)
            requires
                b > 0,
                yi == ti % b,
                zi == ti / b,
        ;
        assert(ti < b * c) by (nonlinear_arith)
            requires
                a > 0,
                f < a * b * c,
                f == xi + ti * a,
                0 <= xi,
        ;
        assert(zi < c) by (nonlinear_arith)
            requires
                b > 0,
                ti < b * c,
                ti == yi + zi * b,
                0 <= yi,
        ;
        assert(f == xi + yi * a + zi * a * b) by (nonlinear_arith)
            requires
                f == xi + ti * a,
                ti == yi + zi * b,
        ;
    }
    [x, y, z]
}

/// A lane for a work-item.
fn make_lane(global: [u32; 3], local: [u32; 3], wg: [u32; 3], flat: u32, wave_size: u32) -> (r: Lane)
    requires
        wave_size > 0,
    ensures
        r.global == global,
        r.local == local,
        r.wg == wg,
        r.flat == flat,
        r.wave_id == flat / wave_size,
        r.lane_id == flat % wave_size,
        r.wave_size == wave_size,
        forall|n: Seq<char>| #[trigger] r.regs.get(n) is None,
{
    Lane {
        global,
        local,
        wg,
        wave_id: flat / wave_size,
        lane_id: flat % wave_size,
        wave_size,
        flat,
        regs: Registers::new(),
    }
}

/// The global id of a local id in workgroup `wg`.
fn global_id(launch: &LaunchConfig, wg: [u32; 3], local: [u32; 3]) -> (r: [u32; 3])
    requires
        launch_valid(*launch),
        forall|d: int| 0 <= d < 3 ==> #[trigger] wg[d] < launch.grid[d] / launch.workgroup[d],
        forall|d: int| 0 <= d < 3 ==> #[trigger] local[d] < launch.workgroup[d],
    ensures
        forall|d: int| 0 <= d < 3 ==> #[trigger] r[d] == wg[d] * launch.workgroup[d] + local[d],
{
    assert(launch.workgroup[0] > 0 && launch.grid[0] % launch.workgroup[0] == 0);
    assert(launch.workgroup[1] > 0 && launch.grid[1] % launch.workgroup[1] == 0);
    assert(launch.workgroup[2] > 0 && launch.grid[2] % launch.workgroup[2] == 0);
    assert(wg[0] < launch.grid[0] / launch.workgroup[0]);
    assert(wg[1] < launch.grid[1] / launch.workgroup[1]);
    assert(wg[2] < launch.grid[2] / launch.workgroup[2]);
    assert(local[0] < launch.workgroup[0]);
    assert(local[1] < launch.workgroup[1]);
    assert(local[2] < launch.workgroup[2]);
    proof {
        lemma_gid_bound(wg[0] as int, launch.workgroup[0] as int, launch.grid[0] as int, local[0] as int);
        lemma_gid_bound(wg[1] as int, launch.workgroup[1] as int, launch.grid[1] as int, local[1] as int);
        lemma_gid_bound(wg[2] as int, launch.workgroup[2] as int, launch.grid[2] as int, local[2] as int);
    }
    let r = [
        wg[0] * launch.workgroup[0] + local[0],
        wg[1] * launch.workgroup[1] + local[1],
        wg[2] * launch.workgroup[2] + local[2],
    ];
    assert forall|d: int| 0 <= d < 3 implies #[trigger] r[d] == wg[d] * launch.workgroup[d] + local[d] by {
        if d == 0 {
        } else if d == 1 {
        } else {
        }
    }
    r
}

/// Every op of the body of a valid program is valid.
proof fn lemma_body_ops_valid(p: Program)
    requires
        program_valid(p),
    ensures
        forall|k: int| 0 <= k < p.body@.len() ==> #[trigger] op_valid(p.body@[k], true),
{
    lemma_ops_valid_each(p.body@, true);
}

/// What one workgroup run returns: lane steps, work-items, barrier
/// generations and atomics.
spec fn workgroup_outcome_ok(r: (u64, u64, u64, u64), budget: u64, items: int, gens: int) -> bool {
    r.0 <= budget && r.1 == items && r.2 == gens && r.3 <= r.0
}

/// Runs workgroup `wg` with each work-item to completion in turn.
#[verifier::rlimit(60)]
#[verifier::spinoff_prover]
fn run_workgroup_lex<O: ExecObserver>(
    program: &Program,
    cfg: &ExecConfig,
    global: &mut GlobalArena,
    group: &mut GlobalArena,
    kernarg: &[u8],
    wg: [u32; 3],
    budget: u64,
    sanitizer: &mut Sanitizer,
    observer: &mut O,
) -> (r: Result<(u64, u64, u64, u64), FunctionalError>)
    requires
        program_valid(*program),
        config_valid(*cfg, *program),
        forall|d: int| 0 <= d < 3 ==> #[trigger] wg[d] < cfg.launch.grid[d] / cfg.launch.workgroup[d],
    ensures
        final(global)@.len() == old(global)@.len(),
        final(group)@.len() == old(group)@.len(),
        sanitizer_frame(*old(sanitizer), *final(sanitizer)),
        r is Ok ==> failfast_clean(*old(sanitizer), *final(sanitizer)),
        finding_after_step(r),
        r matches Ok(t) ==> workgroup_outcome_ok(t, budget, dims_product(cfg.launch.workgroup), 0),
        r matches Ok(t) ==> sem_lex(*program, *cfg, wg, 0, old(global)@, old(group)@, budget as nat, kernarg@)
            == Some(((final(global)@, final(group)@), t.0 as nat, t.3 as nat)),
        old(observer).passive() ==> final(observer).passive(),
        final(observer).faults() == old(observer).faults(),
        final(observer).settings() == old(observer).settings(),
        r matches Err(FunctionalError::DebugBreak) ==> final(observer).stopped(),
        sem_lex(
            *program,
            *cfg,
            wg,
            0,
            old(global)@,
            old(group)@,
            budget as nat,
            kernarg@,
        ) is Some ==> outcome_explained(r, *old(sanitizer), *old(observer)),
{
    let launch = cfg.launch;
    let wgd = launch.workgroup;
    let ghost ab = (wgd[0] * wgd[1]) as int;
    assert(wgd[0] > 0 && wgd[1] > 0 && wgd[2] > 0);
    proof { lemma_body_ops_valid(*program); }
    let mut steps: u64 = 0;
    let mut atomics: u64 = 0;
    let mut workitems: u64 = 0;
    let mut lz: u32 = 0;
    proof {
        lemma_after_steps_zero(sem_lex(*program, *cfg, wg, 0, global@, group@, budget as nat, kernarg@));
    }
    let ghost total = sem_lex(
        *program,
        *cfg,
        wg,
        0,
        global@,
        group@,
        budget as nat,
        kernarg@,
    ) is Some;
    while lz < wgd[2]
        invariant
            program_valid(*program),
            config_valid(*cfg, *program),
            launch == cfg.launch,
            wgd == launch.workgroup,
            ab == wgd[0] * wgd[1],
            wgd[0] > 0 && wgd[1] > 0 && wgd[2] > 0,
            forall|k: int| 0 <= k < program.body@.len() ==> #[trigger] op_valid(program.body@[k], true),
            forall|d: int| 0 <= d < 3 ==> #[trigger] wg[d] < launch.grid[d] / launch.workgroup[d],
            lz <= wgd[2],
            global@.len() == old(global)@.len(),
            group@.len() == old(group)@.len(),
            sanitizer_frame(*old(sanitizer), *sanitizer),
            failfast_clean(*old(sanitizer), *sanitizer),
            steps <= budget,
            atomics <= steps,
            workitems == lz * ab,
            total == (sem_lex(
                *program,
                *cfg,
                wg,
                0,
                old(global)@,
                old(group)@,
                budget as nat,
                kernarg@,
            ) is Some),
            old(observer).passive() ==> observer.passive(),
            observer.faults() == old(observer).faults(),
            observer.settings() == old(observer).settings(),
            sem_lex(*program, *cfg, wg, 0, old(global)@, old(group)@, budget as nat, kernarg@) == after_steps(
                steps as nat,
                atomics as nat,
                sem_lex(*program, *cfg, wg, lz as int, global@, group@, (budget - steps) as nat, kernarg@),
            ),
        decreases wgd[2] - lz,
    {
        let ghost gz0 = global@;
        let ghost pz0 = group@;
        let ghost sz = steps;
        let ghost az = atomics;
        let mut ly: u32 = 0;
        proof {
            if total {
                lemma_after_steps_some(
                    steps as nat,
                    atomics as nat,
                    sem_lex(*program, *cfg, wg, lz as int, gz0, pz0, (budget - sz) as nat, kernarg@),
                );
                assert(sem_lex_plane(*program, *cfg, wg, lz, 0, gz0, pz0, (budget - sz) as nat, kernarg@) is Some);
            }
            lemma_after_steps_zero(sem_lex_plane(*program, *cfg, wg, lz, 0, gz0, pz0, (budget - sz) as nat, kernarg@));
        }
        while ly < wgd[1]
            invariant
                program_valid(*program),
                config_valid(*cfg, *program),
                launch == cfg.launch,
                wgd == launch.workgroup,
                ab == wgd[0] * wgd[1],
                wgd[0] > 0 && wgd[1] > 0 && wgd[2] > 0,
                forall|k: int| 0 <= k < program.body@.len() ==> #[trigger] op_valid(program.body@[k], true),
                forall|d: int| 0 <= d < 3 ==> #[trigger] wg[d] < launch.grid[d] / launch.workgroup[d],
                lz < wgd[2],
                ly <= wgd[1],
                global@.len() == old(global)@.len(),
                group@.len() == old(group)@.len(),
                sanitizer_frame(*old(sanitizer), *sanitizer),
                failfast_clean(*old(sanitizer), *sanitizer),
                steps <= budget,
                atomics <= steps,
                workitems == lz * ab + ly * wgd[0],
                sz <= steps,
                total == (sem_lex(
                *program,
                *cfg,
                wg,
                0,
                old(global)@,
                old(group)@,
                budget as nat,
                kernarg@,
            ) is Some),
            old(observer).passive() ==> observer.passive(),
            observer.faults() == old(observer).faults(),
            observer.settings() == old(observer).settings(),
                total ==> sem_lex_plane(*program, *cfg, wg, lz, 0, gz0, pz0, (budget - sz) as nat, kernarg@) is Some,
                az <= atomics,
                sem_lex_plane(*program, *cfg, wg, lz, 0, gz0, pz0, (budget - sz) as nat, kernarg@) == after_steps(
                    (steps - sz) as nat,
                    (atomics - az) as nat,
                    sem_lex_plane(*program, *cfg, wg, lz, ly as int, global@, group@, (budget - steps) as nat, kernarg@),
                ),
            decreases wgd[1] - ly,
        {
            let ghost gy0 = global@;
            let ghost py0 = group@;
            let ghost sy = steps;
            let ghost ay = atomics;
            let mut lx: u32 = 0;
            proof {
                if total {
                    lemma_after_steps_some(
                        (steps - sz) as nat,
                        (atomics - az) as nat,
                        sem_lex_plane(*program, *cfg, wg, lz, ly as int, gy0, py0, (budget - sy) as nat, kernarg@),
                    );
                    assert(sem_lex_row(*program, *cfg, wg, lz, ly, 0, gy0, py0, (budget - sy) as nat, kernarg@) is Some);
                }
                lemma_after_steps_zero(
                    sem_lex_row(*program, *cfg, wg, lz, ly, 0, gy0, py0, (budget - sy) as nat, kernarg@),
                );
            }
            while lx < wgd[0]
                invariant
                    program_valid(*program),
                    config_valid(*cfg, *program),
                    launch == cfg.launch,
                    wgd == launch.workgroup,
                    ab == wgd[0] * wgd[1],
                    wgd[0] > 0 && wgd[1] > 0 && wgd[2] > 0,
                    forall|k: int| 0 <= k < program.body@.len() ==> #[trigger] op_valid(program.body@[k], true),
                    forall|d: int| 0 <= d < 3 ==> #[trigger] wg[d] < launch.grid[d] / launch.workgroup[d],
                    lz < wgd[2],
                    ly < wgd[1],
                    lx <= wgd[0],
                    global@.len() == old(global)@.len(),
                    group@.len() == old(group)@.len(),
                    sanitizer_frame(*old(sanitizer), *sanitizer),
                    failfast_clean(*old(sanitizer), *sanitizer),
                    steps <= budget,
                    atomics <= steps,
                    workitems == lz * ab + ly * wgd[0] + lx,
                    sy <= steps,
                    total == (sem_lex(
                *program,
                *cfg,
                wg,
                0,
                old(global)@,
                old(group)@,
                budget as nat,
                kernarg@,
            ) is Some),
            old(observer).passive() ==> observer.passive(),
            observer.faults() == old(observer).faults(),
            observer.settings() == old(observer).settings(),
                    total ==> sem_lex_row(*program, *cfg, wg, lz, ly, 0, gy0, py0, (budget - sy) as nat, kernarg@) is Some,
                    ay <= atomics,
                    sem_lex_row(*program, *cfg, wg, lz, ly, 0, gy0, py0, (budget - sy) as nat, kernarg@)
                        == after_steps(
                        (steps - sy) as nat,
                        (atomics - ay) as nat,
                        sem_lex_row(
                            *program,
                            *cfg,
                            wg,
                            lz,
                            ly,
                            lx as int,
                            global@,
                            group@,
                            (budget - steps) as nat,
                            kernarg@,
                        ),
                    ),
                decreases wgd[0] - lx,
            {
                let local = [lx, ly, lz];
                let flat = flat_local(local, wgd);
                let gid = global_id(&launch, wg, local);
                let lane = make_lane(gid, local, wg, flat, cfg.wave_size);
                let ghost gx0 = global@;
                let ghost px0 = group@;
                let ghost sx = steps;
                let ghost ax = atomics;
                proof { lemma_fresh_lane(lane, launch, wg, local, cfg.wave_size); }
                let mut lanes: Vec<Lane> = Vec::new();
                lanes.push(lane);
                let mut mask: Vec<bool> = Vec::new();
                mask.push(true);
                proof {
                    assert(mask@ =~= seq![true]);
                    assert(models(lanes@) =~= seq![fresh_lane(launch, wg, [lx, ly, lz], cfg.wave_size)]);
                    if total {
                        lemma_after_steps_some(
                            (steps - sy) as nat,
                            (atomics - ay) as nat,
                            sem_lex_row(*program, *cfg, wg, lz, ly, lx as int, gx0, px0, (budget - sx) as nat, kernarg@),
                        );
                        assert([(lx as int) as u32, ly, lz] =~= [lx, ly, lz]);
                        assert(sem_seq(
                            program.body@,
                            0,
                            program.body@.len() as int,
                            mask@,
                            mach(lanes@, global@, group@),
                            (budget - steps) as nat,
                            true,
                            kernarg@,
                        ) is Some);
                    }
                }
                let used_at = exec_ops(
                    &program.body,
                    0,
                    program.body.len(),
                    &mut lanes,
                    &mask,
                    global,
                    group,
                    kernarg,
                    budget - steps,
                    true,
                    sanitizer,
                    observer,
                );
                let (used, at) = match used_at {
                    Ok(p) => p,
                    Err(e) => return Err(e),
                };
                steps = steps + used;
                atomics = atomics + at;
                proof {
                    assert([(lx as int) as u32, ly, lz] =~= [lx, ly, lz]);
                    assert(sem_lex_row(*program, *cfg, wg, lz, ly, lx as int, gx0, px0, (budget - sx) as nat, kernarg@)
                        == after_steps(
                        used as nat,
                        at as nat,
                        sem_lex_row(
                            *program,
                            *cfg,
                            wg,
                            lz,
                            ly,
                            lx + 1,
                            global@,
                            group@,
                            (budget - steps) as nat,
                            kernarg@,
                        ),
                    ));
                    lemma_after_steps_add(
                        (sx - sy) as nat,
                        (ax - ay) as nat,
                        used as nat,
                        at as nat,
                        sem_lex_row(
                            *program,
                            *cfg,
                            wg,
                            lz,
                            ly,
                            lx + 1,
                            global@,
                            group@,
                            (budget - steps) as nat,
                            kernarg@,
                        ),
                    );
                }
                assert(workitems + 1 <= dims_product(wgd)) by (nonlinear_arith)
                    requires
                        workitems == lz * ab + ly * wgd[0] + lx,
                        ab == wgd[0] * wgd[1],
                        lx < wgd[0],
                        ly < wgd[1],
                        lz < wgd[2],
                        dims_product(wgd) == wgd[0] * wgd[1] * wgd[2],
                {
                    assert(ly * wgd[0] + lx + 1 <= ab);
                    assert(lz * ab + ab <= wgd[2] * ab);
                }
                workitems = workitems + 1;
                lx = lx + 1;
            }
            proof {
                assert(sem_lex_row(*program, *cfg, wg, lz, ly, lx as int, global@, group@, (budget - steps) as nat, kernarg@)
                    == Some(((global@, group@), 0nat, 0nat)));
                assert(sem_lex_plane(*program, *cfg, wg, lz, ly as int, gy0, py0, (budget - sy) as nat, kernarg@)
                    == after_steps(
                    (steps - sy) as nat,
                    (atomics - ay) as nat,
                    sem_lex_plane(*program, *cfg, wg, lz, ly + 1, global@, group@, (budget - steps) as nat, kernarg@),
                ));
                lemma_after_steps_add(
                    (sy - sz) as nat,
                    (ay - az) as nat,
                    (steps - sy) as nat,
                    (atomics - ay) as nat,
                    sem_lex_plane(*program, *cfg, wg, lz, ly + 1, global@, group@, (budget - steps) as nat, kernarg@),
                );
            }
            assert(lz * ab + ly * wgd[0] + wgd[0] == lz * ab + (ly + 1) * wgd[0]) by (nonlinear_arith);
            ly = ly + 1;
        }
        proof {
            assert(sem_lex_plane(*program, *cfg, wg, lz, ly as int, global@, group@, (budget - steps) as nat, kernarg@)
                == Some(((global@, group@), 0nat, 0nat)));
            assert(sem_lex(*program, *cfg, wg, lz as int, gz0, pz0, (budget - sz) as nat, kernarg@) == after_steps(
                (steps - sz) as nat,
                (atomics - az) as nat,
                sem_lex(*program, *cfg, wg, lz + 1, global@, group@, (budget - steps) as nat, kernarg@),
            ));
            lemma_after_steps_add(
                sz as nat,
                az as nat,
                (steps - sz) as nat,
                (atomics - az) as nat,
                sem_lex(*program, *cfg, wg, lz + 1, global@, group@, (budget - steps) as nat, kernarg@),
            );
        }
        assert(lz * ab + wgd[1] * wgd[0] == (lz + 1) * ab) by (nonlinear_arith)
            requires
                ab == wgd[0] * wgd[1],
        ;
        lz = lz + 1;
    }
    proof {
        assert(sem_lex(*program, *cfg, wg, lz as int, global@, group@, (budget - steps) as nat, kernarg@) == Some(
            ((global@, group@), 0nat, 0nat),
        ));
    }
    assert(wgd[2] * ab == dims_product(wgd)) by (nonlinear_arith)
        requires
            ab == wgd[0] * wgd[1],
    ;
    Ok((steps, workitems, 0, atomics))
}

/// A lane made for a work-item is the model's fresh lane.
proof fn lemma_fresh_lane(l: Lane, launch: LaunchConfig, wg: [u32; 3], local: [u32; 3], ws: u32)
    requires
        forall|d: int| 0 <= d < 3 ==> #[trigger] l.global[d] == wg[d] * launch.workgroup[d] + local[d],
        l.local == local,
        l.wg == wg,
        l.flat == local[0] + local[1] * launch.workgroup[0] + local[2] * launch.workgroup[0] * launch.workgroup[1],
        l.wave_id == l.flat / ws,
        l.lane_id == l.flat % ws,
        l.wave_size == ws,
        forall|n: Seq<char>| #[trigger] l.regs.get(n) is None,
    ensures
        lane_model(l) == fresh_lane(launch, wg, local, ws),
{
    let f = fresh_lane(launch, wg, local, ws);
    assert(l.global[0] == f.global[0]);
    assert(l.global[1] == f.global[1]);
    assert(l.global[2] == f.global[2]);
    assert(l.global =~= f.global);
    assert(regs_map(l.regs) =~= Map::<Seq<char>, i64>::empty());
}

/// Runs workgroup `wg` wave by wave, segment by segment, passing a barrier
/// between segments.
#[verifier::rlimit(40)]
fn run_workgroup_wave_barrier<O: ExecObserver>(
    program: &Program,
    cfg: &ExecConfig,
    global: &mut GlobalArena,
    group: &mut GlobalArena,
    kernarg: &[u8],
    wg: [u32; 3],
    budget: u64,
    sanitizer: &mut Sanitizer,
    observer: &mut O,
) -> (r: Result<(u64, u64, u64, u64), FunctionalError>)
    requires
        program_valid(*program),
        config_valid(*cfg, *program),
        forall|d: int| 0 <= d < 3 ==> #[trigger] wg[d] < cfg.launch.grid[d] / cfg.launch.workgroup[d],
    ensures
        final(global)@.len() == old(global)@.len(),
        final(group)@.len() == old(group)@.len(),
        final(sanitizer).mode_of() == old(sanitizer).mode_of(),
        forall|sp: AddrSpace| #[trigger] final(sanitizer).shadow(sp).len() == old(sanitizer).shadow(sp).len(),
        old(sanitizer).mode_of() is Off ==> final(sanitizer).found() == old(sanitizer).found(),
        r is Ok ==> failfast_clean(*old(sanitizer), *final(sanitizer)),
        finding_after_step(r),
        r matches Ok(t) ==> workgroup_outcome_ok(
            t,
            budget,
            dims_product(cfg.launch.workgroup),
            segments_of(program.body@).len() - 1,
        ),
        r matches Ok(t) ==> sem_wave_barrier(*program, *cfg, wg, old(global)@, old(group)@, budget as nat, kernarg@)
            == Some(((final(global)@, final(group)@), t.0 as nat, t.3 as nat)),
        old(observer).passive() ==> final(observer).passive(),
        final(observer).faults() == old(observer).faults(),
        final(observer).settings() == old(observer).settings(),
        r matches Err(FunctionalError::DebugBreak) ==> final(observer).stopped(),
        sem_wave_barrier(
            *program,
            *cfg,
            wg,
            old(global)@,
            old(group)@,
            budget as nat,
            kernarg@,
        ) is Some ==> outcome_explained(r, *old(sanitizer), *old(observer)),
{
    let launch = cfg.launch;
    let wgd = launch.workgroup;
    let ws = cfg.wave_size;
    assert(wgd[0] > 0 && wgd[1] > 0 && wgd[2] > 0);
    let flat_n = launch.workgroup_flat();
    proof { lemma_body_ops_valid(*program); }
    let mut lanes: Vec<Lane> = Vec::new();
    let mut f: u32 = 0;
    while f < flat_n
        invariant
            config_valid(*cfg, *program),
            launch == cfg.launch,
            wgd == launch.workgroup,
            ws == cfg.wave_size,
            wgd[0] > 0 && wgd[1] > 0 && wgd[2] > 0,
            flat_n == dims_product(wgd),
            forall|d: int| 0 <= d < 3 ==> #[trigger] wg[d] < launch.grid[d] / launch.workgroup[d],
            f <= flat_n,
            lanes@.len() == f,
            forall|j: int| 0 <= j < f ==> #[trigger] models(lanes@)[j] == fresh_lanes(*cfg, wg)[j],
        decreases flat_n - f,
    {
        let local = unflat_local(f, wgd);
        let gid = global_id(&launch, wg, local);
        let lane = make_lane(gid, local, wg, f, ws);
        proof {
            lemma_fresh_lane(lane, launch, wg, local, ws);
            assert(local =~= unflat(f as int, wgd));
        }
        let ghost before = lanes@;
        lanes.push(lane);
        proof {
            assert forall|j: int| 0 <= j < f + 1 implies #[trigger] models(lanes@)[j] == fresh_lanes(*cfg, wg)[j] by {
                if j < f {
                    assert(lanes@[j] == before[j]);
                    assert(models(before)[j] == fresh_lanes(*cfg, wg)[j]);
                } else {
                    assert(lanes@[j] == lane);
                    assert(j < wg_items(*cfg));
                    assert(fresh_lanes(*cfg, wg)[j] == fresh_lane(launch, wg, unflat(j, wgd), ws));
                }
            }
        }
        f = f + 1;
    }
    let ghost m0 = MachineModel { lanes: fresh_lanes(*cfg, wg), global: global@, group: group@ };
    assert(models(lanes@) =~= fresh_lanes(*cfg, wg));
    let bounds = segment_bounds(&program.body)?;
    proof { super::ir::lemma_segments_from_bounds(program.body@, 0, 0); }
    let nseg = bounds.len();
    let n_waves = (flat_n + ws - 1) / ws;
    assert(n_waves <= flat_n + ws) by (nonlinear_arith)
        requires
            ws >= 1,
            n_waves == (flat_n + ws - 1) as int / ws as int,
            flat_n + ws >= 1,
    ;
    let mut steps: u64 = 0;
    let mut atomics: u64 = 0;
    let mut si: usize = 0;
    assert(n_waves == wave_count(*cfg));
    proof {
        lemma_after_steps_zero(sem_segments(*program, *cfg, 0, m0, budget as nat, kernarg@));
    }
    let ghost total = sem_segments(
        *program,
        *cfg,
        0,
        m0,
        budget as nat,
        kernarg@,
    ) is Some;
    while si < nseg
        invariant
            program_valid(*program),
            config_valid(*cfg, *program),
            ws == cfg.wave_size,
            1 <= ws <= MAX_WAVE_SIZE,
            flat_n <= MAX_WORKGROUP_FLAT,
            n_waves <= flat_n + ws,
            lanes@.len() == flat_n,
            forall|k: int| 0 <= k < program.body@.len() ==> #[trigger] op_valid(program.body@[k], true),
            nseg == bounds@.len(),
            bounds@.len() == segments_of(program.body@).len(),
            forall|j: int|
                0 <= j < bounds@.len() ==> (#[trigger] bounds@[j]).0 == segments_of(program.body@)[j].0
                    && bounds@[j].1 == segments_of(program.body@)[j].1,
            forall|j: int|
                0 <= j < segments_of(program.body@).len() ==> 0 <= (#[trigger] segments_of(program.body@)[j]).0
                    <= segments_of(program.body@)[j].1 < program.body@.len(),
            si <= nseg,
            global@.len() == old(global)@.len(),
            group@.len() == old(group)@.len(),
            sanitizer.mode_of() == old(sanitizer).mode_of(),
            forall|sp: AddrSpace| #[trigger] sanitizer.shadow(sp).len() == old(sanitizer).shadow(sp).len(),
            old(sanitizer).mode_of() is Off ==> sanitizer.found() == old(sanitizer).found(),
            failfast_clean(*old(sanitizer), *sanitizer),
            steps <= budget,
            atomics <= steps,
            n_waves == wave_count(*cfg),
            m0.lanes.len() == flat_n,
            total == (sem_segments(
                *program,
                *cfg,
                0,
                m0,
                budget as nat,
                kernarg@,
            ) is Some),
            old(observer).passive() ==> observer.passive(),
            observer.faults() == old(observer).faults(),
            observer.settings() == old(observer).settings(),
            m0 == (MachineModel { lanes: fresh_lanes(*cfg, wg), global: old(global)@, group: old(group)@ }),
            segments_of(program.body@).len() > 0,
            models(lanes@).len() == flat_n,
            sem_segments(*program, *cfg, 0, m0, budget as nat, kernarg@) == after_steps(
                steps as nat,
                atomics as nat,
                sem_segments(*program, *cfg, si as int, mach(lanes@, global@, group@), (budget - steps) as nat, kernarg@),
            ),
        decreases nseg - si,
    {
        let (lo, hi) = bounds[si];
        assert(lo == segments_of(program.body@)[si as int].0);
        let ghost ms = mach(lanes@, global@, group@);
        let ghost ss = steps;
        let ghost as_ = atomics;
        proof {
            if total {
                lemma_after_steps_some(
                    steps as nat,
                    atomics as nat,
                    sem_segments(*program, *cfg, si as int, ms, (budget - ss) as nat, kernarg@),
                );
                assert(sem_waves(*program, *cfg, lo as int, hi as int, 0, ms, (budget - ss) as nat, kernarg@) is Some);
            }
            lemma_after_steps_zero(
                sem_waves(*program, *cfg, lo as int, hi as int, 0, ms, (budget - ss) as nat, kernarg@),
            );
        }
        let mut wave: u32 = 0;
        while wave < n_waves
            invariant
                config_valid(*cfg, *program),
                ws == cfg.wave_size,
                1 <= ws <= MAX_WAVE_SIZE,
                flat_n <= MAX_WORKGROUP_FLAT,
                n_waves <= flat_n + ws,
                lanes@.len() == flat_n,
                lo <= hi < program.body@.len(),
                forall|k: int| 0 <= k < program.body@.len() ==> #[trigger] op_valid(program.body@[k], true),
                global@.len() == old(global)@.len(),
                group@.len() == old(group)@.len(),
                sanitizer.mode_of() == old(sanitizer).mode_of(),
                forall|sp: AddrSpace| #[trigger] sanitizer.shadow(sp).len() == old(sanitizer).shadow(sp).len(),
                old(sanitizer).mode_of() is Off ==> sanitizer.found() == old(sanitizer).found(),
                failfast_clean(*old(sanitizer), *sanitizer),
                steps <= budget,
                atomics <= steps,
                ss <= steps,
                as_ <= atomics,
                n_waves == wave_count(*cfg),
                total == (sem_segments(
                *program,
                *cfg,
                0,
                m0,
                budget as nat,
                kernarg@,
            ) is Some),
            old(observer).passive() ==> observer.passive(),
            observer.faults() == old(observer).faults(),
            observer.settings() == old(observer).settings(),
            m0 == (MachineModel { lanes: fresh_lanes(*cfg, wg), global: old(global)@, group: old(group)@ }),
            segments_of(program.body@).len() > 0,
                total ==> sem_waves(*program, *cfg, lo as int, hi as int, 0, ms, (budget - ss) as nat, kernarg@) is Some,
                sem_waves(*program, *cfg, lo as int, hi as int, 0, ms, (budget - ss) as nat, kernarg@) == after_steps(
                    (steps - ss) as nat,
                    (atomics - as_) as nat,
                    sem_waves(
                        *program,
                        *cfg,
                        lo as int,
                        hi as int,
                        wave as int,
                        mach(lanes@, global@, group@),
                        (budget - steps) as nat,
                        kernarg@,
                    ),
                ),
            decreases n_waves - wave,
        {
            assert(wave * ws <= (flat_n + ws) * ws) by (nonlinear_arith)
                requires
                    wave < n_waves,
                    n_waves <= flat_n + ws,
            ;
            assert((flat_n + ws) * ws <= 1152 * 128) by (nonlinear_arith)
                requires
                    flat_n <= 1024,
                    ws <= 128,
            ;
            let lo_l = wave as u64 * ws as u64;
            let hi_l = if lo_l + (ws as u64) < flat_n as u64 { lo_l + ws as u64 } else { flat_n as u64 };
            let mut mask: Vec<bool> = Vec::new();
            let mut i: u32 = 0;
            while i < flat_n
                invariant
                    i <= flat_n,
                    mask@.len() == i,
                    forall|j: int| 0 <= j < i ==> #[trigger] mask@[j] == (lo_l <= j && j < hi_l),
                decreases flat_n - i,
            {
                mask.push(lo_l <= i as u64 && (i as u64) < hi_l);
                i = i + 1;
            }
            assert(mask@ =~= wave_mask(flat_n as int, wave as int, ws as int));
            let ghost mw = mach(lanes@, global@, group@);
            let ghost sw = steps;
            let ghost aw = atomics;
            proof {
                if total {
                    lemma_after_steps_some(
                        (steps - ss) as nat,
                        (atomics - as_) as nat,
                        sem_waves(*program, *cfg, lo as int, hi as int, wave as int, mw, (budget - sw) as nat, kernarg@),
                    );
                    assert(sem_seq(program.body@, lo as int, hi as int, mask@, mw, (budget - sw) as nat, false, kernarg@)
                        is Some);
                }
            }
            let res = exec_ops(
                &program.body,
                lo,
                hi,
                &mut lanes,
                &mask,
                global,
                group,
                kernarg,
                budget - steps,
                false,
                sanitizer,
                observer,
            );
            let (used, at) = match res {
                Ok(p) => p,
                Err(e) => return Err(e),
            };
            steps = steps + used;
            atomics = atomics + at;
            proof {
                assert(sem_waves(*program, *cfg, lo as int, hi as int, wave as int, mw, (budget - sw) as nat, kernarg@)
                    == after_steps(
                    used as nat,
                    at as nat,
                    sem_waves(
                        *program,
                        *cfg,
                        lo as int,
                        hi as int,
                        wave + 1,
                        mach(lanes@, global@, group@),
                        (budget - steps) as nat,
                        kernarg@,
                    ),
                ));
                lemma_after_steps_add(
                    (sw - ss) as nat,
                    (aw - as_) as nat,
                    used as nat,
                    at as nat,
                    sem_waves(
                        *program,
                        *cfg,
                        lo as int,
                        hi as int,
                        wave + 1,
                        mach(lanes@, global@, group@),
                        (budget - steps) as nat,
                        kernarg@,
                    ),
                );
            }
            wave = wave + 1;
        }
        proof {
            assert(sem_waves(
                *program,
                *cfg,
                lo as int,
                hi as int,
                wave as int,
                mach(lanes@, global@, group@),
                (budget - steps) as nat,
                kernarg@,
            ) == Some((mach(lanes@, global@, group@), 0nat, 0nat)));
            assert(sem_segments(*program, *cfg, si as int, ms, (budget - ss) as nat, kernarg@) == after_steps(
                (steps - ss) as nat,
                (atomics - as_) as nat,
                sem_segments(*program, *cfg, si + 1, mach(lanes@, global@, group@), (budget - steps) as nat, kernarg@),
            ));
            lemma_after_steps_add(
                ss as nat,
                as_ as nat,
                (steps - ss) as nat,
                (atomics - as_) as nat,
                sem_segments(*program, *cfg, si + 1, mach(lanes@, global@, group@), (budget - steps) as nat, kernarg@),
            );
        }
        if si + 1 < nseg {
            sanitizer.note_barrier();
            observer.on_barrier(sanitizer.generation())?;
        }
        si = si + 1;
    }
    proof {
        assert(sem_segments(*program, *cfg, si as int, mach(lanes@, global@, group@), (budget - steps) as nat, kernarg@)
            == Some((mach(lanes@, global@, group@), 0nat, 0nat)));
    }
    Ok((steps, flat_n as u64, (nseg - 1) as u64, atomics))
}


/// Runs workgroup `wg` on a fresh zeroed group memory of `glen` bytes
/// under the configured schedule.
fn run_workgroup<O: ExecObserver>(
    program: &Program,
    cfg: &ExecConfig,
    global: &mut GlobalArena,
    glen: u32,
    kernarg: &[u8],
    wg: [u32; 3],
    budget: u64,
    sanitizer: &mut Sanitizer,
    observer: &mut O,
) -> (r: Result<(u64, u64, u64, u64), FunctionalError>)
    requires
        program_valid(*program),
        config_valid(*cfg, *program),
        glen == group_len(*cfg, *program),
        forall|d: int| 0 <= d < 3 ==> #[trigger] wg[d] < cfg.launch.grid[d] / cfg.launch.workgroup[d],
    ensures
        final(global)@.len() == old(global)@.len(),
        final(sanitizer).mode_of() == old(sanitizer).mode_of(),
        forall|sp: AddrSpace| #[trigger] final(sanitizer).shadow(sp).len() == old(sanitizer).shadow(sp).len(),
        old(sanitizer).mode_of() is Off ==> final(sanitizer).found() == old(sanitizer).found(),
        r is Ok ==> failfast_clean(*old(sanitizer), *final(sanitizer)),
        finding_after_step(r),
        r matches Ok(t) ==> t.0 <= budget && t.1 == dims_product(cfg.launch.workgroup) && t.3 <= t.0 && (
        cfg.schedule is LexWorkitem ==> t.2 == 0),
        r matches Ok(t) ==> sem_workgroup(*program, *cfg, wg, old(global)@, budget as nat, kernarg@) == Some(
            (final(global)@, t.0 as nat, t.3 as nat),
        ),
        old(observer).passive() ==> final(observer).passive(),
        final(observer).faults() == old(observer).faults(),
        final(observer).settings() == old(observer).settings(),
        r matches Err(FunctionalError::DebugBreak) ==> final(observer).stopped(),
        sem_workgroup(
            *program,
            *cfg,
            wg,
            old(global)@,
            budget as nat,
            kernarg@,
        ) is Some ==> outcome_explained(r, *old(sanitizer), *old(observer)),
{
    let mut group = GlobalArena::new(glen as usize);
    sanitizer.begin_workgroup();
    match cfg.schedule {
        SchedulePolicy::LexWorkitem => run_workgroup_lex(
            program,
            cfg,
            global,
            &mut group,
            kernarg,
            wg,
            budget,
            sanitizer,
            observer,
        ),
        SchedulePolicy::WaveBarrier => run_workgroup_wave_barrier(
            program,
            cfg,
            global,
            &mut group,
            kernarg,
            wg,
            budget,
            sanitizer,
            observer,
        ),
    }
}

/// Number of workgroups of a launch.
pub open spec fn workgroup_count(l: LaunchConfig) -> int {
    (l.grid[0] / l.workgroup[0]) * (l.grid[1] / l.workgroup[1]) * (l.grid[2] / l.workgroup[2])
}

/// The report echoes the program and configuration of its run.
pub open spec fn report_echoes(rep: RunReport, p: Program, cfg: ExecConfig) -> bool {
    &&& rep.fidelity@ == "functional"@
    &&& rep.mode@ == FUNCTIONAL_MODE_MARKER@
    &&& rep.note@ == "not_gfx1201_isa_emulation"@
    &&& rep.kernel@ == p.name@
    &&& rep.grid == cfg.launch.grid
    &&& rep.workgroup == cfg.launch.workgroup
    &&& rep.wave_size == cfg.wave_size
    &&& rep.schedule == cfg.schedule
}

/// What every successful run reports: its configuration, every work-item of
/// the grid executed once, no more lane steps than the budget, and no
/// barrier generations under the lexicographic schedule.
pub open spec fn run_outcome(rep: RunReport, p: Program, cfg: ExecConfig) -> bool {
    &&& report_echoes(rep, p, cfg)
    &&& rep.workitems_executed == dims_product(cfg.launch.grid)
    &&& rep.steps <= cfg.step_budget
    &&& rep.atomics_executed <= rep.steps
    &&& cfg.schedule is LexWorkitem ==> rep.barrier_generations == 0
}

/// The workgroups of a valid launch cover its grid.
proof fn lemma_grid_product(l: LaunchConfig)
    requires
        launch_valid(l),
    ensures
        workgroup_count(l) * dims_product(l.workgroup) == dims_product(l.grid),
{
    let g0 = l.grid[0] as int;
    let g1 = l.grid[1] as int;
    let g2 = l.grid[2] as int;
    let w0 = l.workgroup[0] as int;
    let w1 = l.workgroup[1] as int;
    let w2 = l.workgroup[2] as int;
    assert(w0 > 0 && g0 % w0 == 0);
    assert(w1 > 0 && g1 % w1 == 0);
    assert(w2 > 0 && g2 % w2 == 0);
    vstd::arithmetic::div_mod::lemma_fundamental_div_mod(g0, w0);
    vstd::arithmetic::div_mod::lemma_fundamental_div_mod(g1, w1);
    vstd::arithmetic::div_mod::lemma_fundamental_div_mod(g2, w2);
    let n0 = g0 / w0;
    let n1 = g1 / w1;
    let n2 = g2 / w2;
    assert(n0 * n1 * n2 * (w0 * w1 * w2) == (n0 * w0) * (n1 * w1) * (n2 * w2)) by (nonlinear_arith);
}

/// Executes a validated program on a validated configuration, workgroup
/// by workgroup in lexicographic order, with a fresh zeroed group memory per
/// workgroup.
#[verifier::rlimit(60)]
fn run_core<O: ExecObserver>(
    program: &Program,
    cfg: ExecConfig,
    arena: &mut GlobalArena,
    kernarg: &[u8],
    start_sanitizer: Sanitizer,
    observer: &mut O,
) -> (r: Result<(RunReport, SanitizeReport), FunctionalError>)
    ensures
        final(arena)@.len() == old(arena)@.len(),
        !program_valid(*program) ==> (r matches Err(e) && is_validation(e, program_error(*program))),
        program_valid(*program) && !config_valid(cfg, *program) ==> (r matches Err(e) && is_validation(
            e,
            config_error(cfg, *program),
        )),
        !program_valid(*program) ==> r is Err && r->Err_0 is Validation && *final(arena) == *old(arena),
        program_valid(*program) && !config_valid(cfg, *program) ==> r is Err && r->Err_0 is Validation
            && *final(arena) == *old(arena),
        r matches Ok((rep, san)) ==> {
            &&& program_valid(*program)
            &&& config_valid(cfg, *program)
            &&& run_outcome(rep, *program, cfg)
            &&& start_sanitizer.mode_of() is Off ==> san.findings@ == start_sanitizer.found()
            &&& start_sanitizer.mode_of() is FailFast ==> san.findings@ == start_sanitizer.found()
            &&& run_model(*program, cfg, old(arena)@, kernarg@) == Some(
                (final(arena)@, rep.steps as nat, rep.atomics_executed as nat),
            )
        },
        old(observer).passive() ==> final(observer).passive(),
        final(observer).faults() == old(observer).faults(),
        final(observer).settings() == old(observer).settings(),
        r matches Err(FunctionalError::DebugBreak) ==> final(observer).stopped(),
        finding_after_step(r),
        program_valid(*program) && config_valid(cfg, *program) && run_model(*program, cfg, old(arena)@, kernarg@)
            is Some ==> outcome_explained(r, start_sanitizer, *old(observer)),
{
    program.validate()?;
    cfg.validate(program)?;
    let mut sanitizer = start_sanitizer;
    let ghost s_start = sanitizer;
    let launch = cfg.launch;
    assert(launch.workgroup[0] > 0 && launch.workgroup[1] > 0 && launch.workgroup[2] > 0);
    let nwg = launch.num_workgroups();
    let glen = if cfg.group_bytes >= program.group_bytes { cfg.group_bytes } else { program.group_bytes };
    let wg_flat = launch.workgroup_flat() as u64;
    let ghost n01 = (nwg[0] * nwg[1]) as int;
    proof {
        lemma_grid_product(launch);
        let w0 = launch.workgroup[0] as int;
        let w1 = launch.workgroup[1] as int;
        let w2 = launch.workgroup[2] as int;
        assert(w0 * w1 * w2 >= 1) by (nonlinear_arith)
            requires
                w0 >= 1,
                w1 >= 1,
                w2 >= 1,
        ;
        let n0 = launch.grid[0] as int / w0;
        let n1 = launch.grid[1] as int / w1;
        let n2 = launch.grid[2] as int / w2;
        assert(n0 >= 0 && n1 >= 0 && n2 >= 0);
        assert(n0 * n1 * n2 >= 0) by (nonlinear_arith)
            requires
                n0 >= 0,
                n1 >= 0,
                n2 >= 0,
        ;
        assert(workgroup_count(launch) == n0 * n1 * n2);
        assert(workgroup_count(launch) <= dims_product(launch.grid)) by (nonlinear_arith)
            requires
                workgroup_count(launch) * dims_product(launch.workgroup) == dims_product(launch.grid),
                dims_product(launch.workgroup) >= 1,
                workgroup_count(launch) >= 0,
        ;
    }
    let mut steps: u64 = 0;
    let mut workitems: u64 = 0;
    let mut gens: u64 = 0;
    let mut atomics: u64 = 0;
    let mut done: u64 = 0;
    let mut gz: u32 = 0;
    let ghost bud = cfg.step_budget;
    proof {
        lemma_after_steps_zero(run_model(*program, cfg, arena@, kernarg@));
    }
    let ghost total = run_model(*program, cfg, arena@, kernarg@)
        is Some;
    while gz < nwg[2]
        invariant
            program_valid(*program),
            config_valid(cfg, *program),
            launch == cfg.launch,
            forall|d: int| 0 <= d < 3 ==> #[trigger] nwg[d] == launch.grid[d] / launch.workgroup[d],
            n01 == nwg[0] * nwg[1],
            wg_flat == dims_product(launch.workgroup),
            workgroup_count(launch) * dims_product(launch.workgroup) == dims_product(launch.grid),
            workgroup_count(launch) <= dims_product(launch.grid),
            gz <= nwg[2],
            arena@.len() == old(arena)@.len(),
            sanitizer.mode_of() == s_start.mode_of(),
            forall|sp: AddrSpace| #[trigger] sanitizer.shadow(sp).len() == s_start.shadow(sp).len(),
            s_start.mode_of() is Off ==> sanitizer.found() == s_start.found(),
            s_start.mode_of() is FailFast ==> sanitizer.found() == s_start.found(),
            steps <= cfg.step_budget,
            atomics <= steps,
            done == gz * n01,
            workitems == done * wg_flat,
            cfg.schedule is LexWorkitem ==> gens == 0,
            bud == cfg.step_budget,
            glen == group_len(cfg, *program),
            s_start == start_sanitizer,
            total == (run_model(
                *program,
                cfg,
                old(arena)@,
                kernarg@,
            ) is Some),
            old(observer).passive() ==> observer.passive(),
            observer.faults() == old(observer).faults(),
            observer.settings() == old(observer).settings(),
            run_model(*program, cfg, old(arena)@, kernarg@) == after_steps(
                steps as nat,
                atomics as nat,
                sem_grid(*program, cfg, gz as int, arena@, (bud - steps) as nat, kernarg@),
            ),
        decreases nwg[2] - gz,
    {
        let ghost az0 = arena@;
        let ghost sz = steps;
        let ghost tz = atomics;
        proof {
            lemma_after_steps_zero(sem_grid_plane(*program, cfg, gz, 0, az0, (bud - sz) as nat, kernarg@));
            if total {
                lemma_after_steps_some(
                    steps as nat,
                    atomics as nat,
                    sem_grid(*program, cfg, gz as int, az0, (bud - sz) as nat, kernarg@),
                );
                assert(sem_grid_plane(*program, cfg, gz, 0, az0, (bud - sz) as nat, kernarg@) is Some);
            }
        }
        let mut gy: u32 = 0;
        while gy < nwg[1]
            invariant
                program_valid(*program),
                config_valid(cfg, *program),
                launch == cfg.launch,
                forall|d: int| 0 <= d < 3 ==> #[trigger] nwg[d] == launch.grid[d] / launch.workgroup[d],
                n01 == nwg[0] * nwg[1],
                wg_flat == dims_product(launch.workgroup),
                workgroup_count(launch) * dims_product(launch.workgroup) == dims_product(launch.grid),
                workgroup_count(launch) <= dims_product(launch.grid),
                gz < nwg[2],
                gy <= nwg[1],
                arena@.len() == old(arena)@.len(),
                sanitizer.mode_of() == s_start.mode_of(),
                forall|sp: AddrSpace| #[trigger] sanitizer.shadow(sp).len() == s_start.shadow(sp).len(),
                s_start.mode_of() is Off ==> sanitizer.found() == s_start.found(),
                s_start.mode_of() is FailFast ==> sanitizer.found() == s_start.found(),
                steps <= cfg.step_budget,
                atomics <= steps,
                done == gz * n01 + gy * nwg[0],
                workitems == done * wg_flat,
                cfg.schedule is LexWorkitem ==> gens == 0,
                bud == cfg.step_budget,
                glen == group_len(cfg, *program),
                s_start == start_sanitizer,
            total == (run_model(
                *program,
                cfg,
                old(arena)@,
                kernarg@,
            ) is Some),
            old(observer).passive() ==> observer.passive(),
            observer.faults() == old(observer).faults(),
            observer.settings() == old(observer).settings(),
                total ==> sem_grid_plane(*program, cfg, gz, 0, az0, (bud - sz) as nat, kernarg@) is Some,
                sz <= steps,
                tz <= atomics,
                sem_grid_plane(*program, cfg, gz, 0, az0, (bud - sz) as nat, kernarg@) == after_steps(
                    (steps - sz) as nat,
                    (atomics - tz) as nat,
                    sem_grid_plane(*program, cfg, gz, gy as int, arena@, (bud - steps) as nat, kernarg@),
                ),
            decreases nwg[1] - gy,
        {
            let ghost ay0 = arena@;
            let ghost sy = steps;
            let ghost ty = atomics;
            proof {
                lemma_after_steps_zero(sem_grid_row(*program, cfg, gz, gy, 0, ay0, (bud - sy) as nat, kernarg@));
                if total {
                    lemma_after_steps_some(
                        (steps - sz) as nat,
                        (atomics - tz) as nat,
                        sem_grid_plane(*program, cfg, gz, gy as int, ay0, (bud - sy) as nat, kernarg@),
                    );
                    assert(sem_grid_row(*program, cfg, gz, gy, 0, ay0, (bud - sy) as nat, kernarg@) is Some);
                }
            }
            let mut gx: u32 = 0;
            while gx < nwg[0]
                invariant
                    program_valid(*program),
                    config_valid(cfg, *program),
                    launch == cfg.launch,
                    forall|d: int| 0 <= d < 3 ==> #[trigger] nwg[d] == launch.grid[d] / launch.workgroup[d],
                    n01 == nwg[0] * nwg[1],
                    wg_flat == dims_product(launch.workgroup),
                    workgroup_count(launch) * dims_product(launch.workgroup) == dims_product(launch.grid),
                    workgroup_count(launch) <= dims_product(launch.grid),
                    gz < nwg[2],
                    gy < nwg[1],
                    gx <= nwg[0],
                    arena@.len() == old(arena)@.len(),
                    sanitizer.mode_of() == s_start.mode_of(),
                    forall|sp: AddrSpace| #[trigger] sanitizer.shadow(sp).len() == s_start.shadow(sp).len(),
                    s_start.mode_of() is Off ==> sanitizer.found() == s_start.found(),
                    s_start.mode_of() is FailFast ==> sanitizer.found() == s_start.found(),
                    steps <= cfg.step_budget,
                    atomics <= steps,
                    done == gz * n01 + gy * nwg[0] + gx,
                    workitems == done * wg_flat,
                    cfg.schedule is LexWorkitem ==> gens == 0,
                    bud == cfg.step_budget,
                    sy <= steps,
                    ty <= atomics,
                    glen == group_len(cfg, *program),
                    s_start == start_sanitizer,
            total == (run_model(
                *program,
                cfg,
                old(arena)@,
                kernarg@,
            ) is Some),
            old(observer).passive() ==> observer.passive(),
            observer.faults() == old(observer).faults(),
            observer.settings() == old(observer).settings(),
                    total ==> sem_grid_row(*program, cfg, gz, gy, 0, ay0, (bud - sy) as nat, kernarg@) is Some,
                    sem_grid_row(*program, cfg, gz, gy, 0, ay0, (bud - sy) as nat, kernarg@) == after_steps(
                        (steps - sy) as nat,
                        (atomics - ty) as nat,
                        sem_grid_row(*program, cfg, gz, gy, gx as int, arena@, (bud - steps) as nat, kernarg@),
                    ),
                decreases nwg[0] - gx,
            {
                let ghost ax0 = arena@;
                let ghost sx = steps;
                let ghost tx = atomics;
                let wg = [gx, gy, gz];
                proof {
                    if total {
                        lemma_after_steps_some(
                            (steps - sy) as nat,
                            (atomics - ty) as nat,
                            sem_grid_row(*program, cfg, gz, gy, gx as int, ax0, (bud - sx) as nat, kernarg@),
                        );
                        assert([(gx as int) as u32, gy, gz] =~= wg);
                        assert(sem_workgroup(*program, cfg, wg, ax0, (bud - sx) as nat, kernarg@) is Some);
                    }
                }
                assert(forall|d: int| 0 <= d < 3 ==> #[trigger] wg[d] < launch.grid[d] / launch.workgroup[d]);
                let res = run_workgroup(
                    program,
                    &cfg,
                    arena,
                    glen,
                    kernarg,
                    wg,
                    cfg.step_budget - steps,
                    &mut sanitizer,
                    observer,
                );
                let (s, wi, g, at) = match res {
                    Ok(t) => t,
                    Err(e) => return Err(e),
                };
                assert(done + 1 <= workgroup_count(launch)) by (nonlinear_arith)
                    requires
                        done == gz * n01 + gy * nwg[0] + gx,
                        n01 == nwg[0] * nwg[1],
                        gx < nwg[0],
                        gy < nwg[1],
                        gz < nwg[2],
                        workgroup_count(launch) == nwg[0] * nwg[1] * nwg[2],
                {
                    assert(gy * nwg[0] + gx + 1 <= n01);
                    assert(gz * n01 + n01 <= nwg[2] * n01);
                }
                assert(workitems + wi <= dims_product(launch.grid)) by (nonlinear_arith)
                    requires
                        workitems == done * wg_flat,
                        wi == wg_flat,
                        done + 1 <= workgroup_count(launch),
                        workgroup_count(launch) * wg_flat == dims_product(launch.grid),
                        wg_flat >= 0,
                {
                    assert((done + 1) * wg_flat <= workgroup_count(launch) * wg_flat);
                }
                steps = steps + s;
                atomics = atomics + at;
                proof {
                    assert([(gx as int) as u32, gy, gz] =~= wg);
                    assert(sem_workgroup(*program, cfg, wg, ax0, (bud - sx) as nat, kernarg@) == Some(
                        (arena@, s as nat, at as nat),
                    ));
                    assert(sem_grid_row(*program, cfg, gz, gy, gx as int, ax0, (bud - sx) as nat, kernarg@)
                        == after_steps(
                        s as nat,
                        at as nat,
                        sem_grid_row(*program, cfg, gz, gy, gx + 1, arena@, (bud - steps) as nat, kernarg@),
                    ));
                    lemma_after_steps_add(
                        (sx - sy) as nat,
                        (tx - ty) as nat,
                        s as nat,
                        at as nat,
                        sem_grid_row(*program, cfg, gz, gy, gx + 1, arena@, (bud - steps) as nat, kernarg@),
                    );
                }
                workitems = workitems + wi;
                gens = gens.saturating_add(g);
                assert(workitems == (done + 1) * wg_flat) by (nonlinear_arith)
                    requires
                        workitems == done * wg_flat + wg_flat,
                ;
                done = done + 1;
                gx = gx + 1;
            }
            proof {
                assert(sem_grid_row(*program, cfg, gz, gy, gx as int, arena@, (bud - steps) as nat, kernarg@) == Some(
                    (arena@, 0nat, 0nat),
                ));
                assert(sem_grid_plane(*program, cfg, gz, gy as int, ay0, (bud - sy) as nat, kernarg@) == after_steps(
                    (steps - sy) as nat,
                    (atomics - ty) as nat,
                    sem_grid_plane(*program, cfg, gz, gy + 1, arena@, (bud - steps) as nat, kernarg@),
                ));
                lemma_after_steps_add(
                    (sy - sz) as nat,
                    (ty - tz) as nat,
                    (steps - sy) as nat,
                    (atomics - ty) as nat,
                    sem_grid_plane(*program, cfg, gz, gy + 1, arena@, (bud - steps) as nat, kernarg@),
                );
            }
            assert(gz * n01 + gy * nwg[0] + nwg[0] == gz * n01 + (gy + 1) * nwg[0]) by (nonlinear_arith);
            gy = gy + 1;
        }
        proof {
            assert(sem_grid_plane(*program, cfg, gz, gy as int, arena@, (bud - steps) as nat, kernarg@) == Some(
                (arena@, 0nat, 0nat),
            ));
            assert(sem_grid(*program, cfg, gz as int, az0, (bud - sz) as nat, kernarg@) == after_steps(
                (steps - sz) as nat,
                (atomics - tz) as nat,
                sem_grid(*program, cfg, gz + 1, arena@, (bud - steps) as nat, kernarg@),
            ));
            lemma_after_steps_add(
                sz as nat,
                tz as nat,
                (steps - sz) as nat,
                (atomics - tz) as nat,
                sem_grid(*program, cfg, gz + 1, arena@, (bud - steps) as nat, kernarg@),
            );
        }
        assert(gz * n01 + nwg[1] * nwg[0] == (gz + 1) * n01) by (nonlinear_arith)
            requires
                n01 == nwg[0] * nwg[1],
        ;
        gz = gz + 1;
    }
    assert(workitems == dims_product(launch.grid)) by (nonlinear_arith)
        requires
            workitems == done * wg_flat,
            done == nwg[2] * n01,
            n01 == nwg[0] * nwg[1],
            workgroup_count(launch) == nwg[0] * nwg[1] * nwg[2],
            workgroup_count(launch) * wg_flat == dims_product(launch.grid),
    ;
    proof {
        assert(sem_grid(*program, cfg, gz as int, arena@, (bud - steps) as nat, kernarg@) == Some(
            (arena@, 0nat, 0nat),
        ));
    }
    let report = RunReport {
        fidelity: "functional",
        mode: FUNCTIONAL_MODE_MARKER,
        note: "not_gfx1201_isa_emulation",
        kernel: program.name.clone(),
        workitems_executed: workitems,
        steps,
        grid: launch.grid,
        workgroup: launch.workgroup,
        wave_size: cfg.wave_size,
        schedule: cfg.schedule,
        barrier_generations: gens,
        atomics_executed: atomics,
    };
    Ok((report, sanitizer.into_report()))
}

/// The configuration `run` and `run_with_budget` use for a program.
pub open spec fn default_config(launch: LaunchConfig, p: Program, budget: u64) -> ExecConfig {
    ExecConfig {
        launch,
        wave_size: DEFAULT_WAVE_SIZE,
        group_bytes: p.group_bytes,
        schedule: if ops_have_barrier(p.body@) {
            SchedulePolicy::WaveBarrier
        } else {
            SchedulePolicy::LexWorkitem
        },
        step_budget: budget,
        sanitize: SanitizeMode::Off,
        schedule_seed: 0,
    }
}

/// Executes with the sanitizer `sanitizer` set up by the caller (for shadow
/// states such as freed or uninitialized bytes).
pub fn run_with_sanitizer(
    program: &Program,
    cfg: ExecConfig,
    arena: &mut GlobalArena,
    kernarg: &[u8],
    sanitizer: Sanitizer,
) -> (r: Result<(RunReport, SanitizeReport), FunctionalError>)
    ensures
        final(arena)@.len() == old(arena)@.len(),
        !program_valid(*program) ==> (r matches Err(e) && is_validation(e, program_error(*program))),
        program_valid(*program) && !config_valid(cfg, *program) ==> (r matches Err(e) && is_validation(
            e,
            config_error(cfg, *program),
        )),
        finding_after_step(r),
        !program_valid(*program) ==> r is Err && r->Err_0 is Validation && *final(arena) == *old(arena),
        program_valid(*program) && !config_valid(cfg, *program) ==> r is Err && r->Err_0 is Validation
            && *final(arena) == *old(arena),
        r matches Ok((rep, san)) ==> {
            &&& program_valid(*program)
            &&& config_valid(cfg, *program)
            &&& run_outcome(rep, *program, cfg)
            &&& sanitizer.mode_of() is Off ==> san.findings@ == sanitizer.found()
            &&& sanitizer.mode_of() is FailFast ==> san.findings@ == sanitizer.found()
            &&& run_model(*program, cfg, old(arena)@, kernarg@) == Some(
                (final(arena)@, rep.steps as nat, rep.atomics_executed as nat),
            )
        },
        program_valid(*program) && config_valid(cfg, *program) && sanitizer.mode_of() is Off && run_model(
            *program,
            cfg,
            old(arena)@,
            kernarg@,
        ) is Some ==> r is Ok,
        program_valid(*program) && config_valid(cfg, *program) && run_model(*program, cfg, old(arena)@, kernarg@) is Some
            ==> (r is Ok || r->Err_0 is Sanitize),
{
    let mut obs = NoopObserver;
    run_core(program, cfg, arena, kernarg, sanitizer, &mut obs)
}

/// The group-memory bytes of a run, as a `usize`.
fn group_bytes_of(cfg: &ExecConfig, program: &Program) -> (r: usize)
    ensures
        r == group_len(*cfg, *program),
{
    let g = if cfg.group_bytes >= program.group_bytes { cfg.group_bytes } else { program.group_bytes };
    g as usize
}

/// The sanitizer a run starts with: fails when the sanitizer is on and the
/// shadows would exceed `MAX_SHADOW_BYTES`.
pub open spec fn shadow_too_large(cfg: ExecConfig, p: Program, arena_len: nat) -> bool {
    !(cfg.sanitize is Off) && arena_len + group_len(cfg, p) > super::sanitize::MAX_SHADOW_BYTES
}

/// Executes with a fresh sanitizer in `cfg.sanitize` mode and returns the run
/// report and the sanitizer report.
pub fn run_with_config_sanitized(
    program: &Program,
    cfg: ExecConfig,
    arena: &mut GlobalArena,
    kernarg: &[u8],
) -> (r: Result<(RunReport, SanitizeReport), FunctionalError>)
    ensures
        final(arena)@.len() == old(arena)@.len(),
        !shadow_too_large(cfg, *program, old(arena)@.len()) && !program_valid(*program) ==> (r matches Err(e)
            && is_validation(e, program_error(*program))),
        !shadow_too_large(cfg, *program, old(arena)@.len()) && program_valid(*program) && !config_valid(cfg, *program)
            ==> (r matches Err(e) && is_validation(e, config_error(cfg, *program))),
        !shadow_too_large(cfg, *program, old(arena)@.len()) ==> finding_after_step(r),
        shadow_too_large(cfg, *program, old(arena)@.len()) ==> *final(arena) == *old(arena) && r is Err
            && (r->Err_0 matches FunctionalError::Sanitize(f) && f.kind is ShadowLimit),
        !shadow_too_large(cfg, *program, old(arena)@.len()) && !program_valid(*program) ==> r is Err
            && r->Err_0 is Validation && *final(arena) == *old(arena),
        !shadow_too_large(cfg, *program, old(arena)@.len()) && program_valid(*program) && !config_valid(
            cfg,
            *program,
        ) ==> r is Err && r->Err_0 is Validation && *final(arena) == *old(arena),
        r matches Ok((rep, san)) ==> {
            &&& program_valid(*program)
            &&& config_valid(cfg, *program)
            &&& run_outcome(rep, *program, cfg)
            &&& (cfg.sanitize is Off || cfg.sanitize is FailFast) ==> san.findings@.len() == 0
            &&& run_model(*program, cfg, old(arena)@, kernarg@) == Some(
                (final(arena)@, rep.steps as nat, rep.atomics_executed as nat),
            )
        },
        program_valid(*program) && config_valid(cfg, *program) && cfg.sanitize is Off && run_model(
            *program,
            cfg,
            old(arena)@,
            kernarg@,
        ) is Some ==> r is Ok,
        program_valid(*program) && config_valid(cfg, *program) && run_model(*program, cfg, old(arena)@, kernarg@) is Some
            ==> (r is Ok || r->Err_0 is Sanitize),
{
    let glen = group_bytes_of(&cfg, program);
    let sanitizer = Sanitizer::new(cfg.sanitize, arena.len(), glen)?;
    run_with_sanitizer(program, cfg, arena, kernarg, sanitizer)
}

/// Executes with an observer that sees every lane step and barrier.
pub fn run_with_observer<O: ExecObserver>(
    program: &Program,
    cfg: ExecConfig,
    arena: &mut GlobalArena,
    kernarg: &[u8],
    observer: &mut O,
) -> (r: Result<(RunReport, SanitizeReport), FunctionalError>)
    ensures
        final(arena)@.len() == old(arena)@.len(),
        !shadow_too_large(cfg, *program, old(arena)@.len()) && !program_valid(*program) ==> (r matches Err(e)
            && is_validation(e, program_error(*program))),
        !shadow_too_large(cfg, *program, old(arena)@.len()) && program_valid(*program) && !config_valid(cfg, *program)
            ==> (r matches Err(e) && is_validation(e, config_error(cfg, *program))),
        !shadow_too_large(cfg, *program, old(arena)@.len()) ==> finding_after_step(r),
        shadow_too_large(cfg, *program, old(arena)@.len()) ==> *final(arena) == *old(arena) && r is Err
            && (r->Err_0 matches FunctionalError::Sanitize(f) && f.kind is ShadowLimit),
        !shadow_too_large(cfg, *program, old(arena)@.len()) && !program_valid(*program) ==> r is Err
            && r->Err_0 is Validation && *final(arena) == *old(arena),
        !shadow_too_large(cfg, *program, old(arena)@.len()) && program_valid(*program) && !config_valid(
            cfg,
            *program,
        ) ==> r is Err && r->Err_0 is Validation && *final(arena) == *old(arena),
        r matches Ok((rep, san)) ==> {
            &&& program_valid(*program)
            &&& config_valid(cfg, *program)
            &&& run_outcome(rep, *program, cfg)
            &&& (cfg.sanitize is Off || cfg.sanitize is FailFast) ==> san.findings@.len() == 0
            &&& run_model(*program, cfg, old(arena)@, kernarg@) == Some(
                (final(arena)@, rep.steps as nat, rep.atomics_executed as nat),
            )
        },
        old(observer).passive() ==> final(observer).passive(),
        final(observer).faults() == old(observer).faults(),
        final(observer).settings() == old(observer).settings(),
        r matches Err(FunctionalError::DebugBreak) ==> final(observer).stopped(),
        !shadow_too_large(cfg, *program, old(arena)@.len()) && program_valid(*program) && config_valid(cfg, *program)
            && run_model(*program, cfg, old(arena)@, kernarg@) is Some ==> {
            ||| r is Ok
            ||| r->Err_0 is Sanitize && !(cfg.sanitize is Off)
            ||| !old(observer).passive() && (r->Err_0 is DebugBreak || old(observer).faults().contains(r->Err_0))
        },
        program_valid(*program) && config_valid(cfg, *program) && cfg.sanitize is Off && old(observer).passive()
            && run_model(*program, cfg, old(arena)@, kernarg@) is Some ==> r is Ok,
        program_valid(*program) && config_valid(cfg, *program) && old(observer).passive() && run_model(
            *program,
            cfg,
            old(arena)@,
            kernarg@,
        ) is Some ==> (r is Ok || r->Err_0 is Sanitize),
{
    let glen = group_bytes_of(&cfg, program);
    let sanitizer = Sanitizer::new(cfg.sanitize, arena.len(), glen)?;
    run_core(program, cfg, arena, kernarg, sanitizer, observer)
}

/// Executes with `cfg` and no sanitizer report.
pub fn run_with_config(program: &Program, cfg: ExecConfig, arena: &mut GlobalArena, kernarg: &[u8]) -> (r: Result<
    RunReport,
    FunctionalError,
>)
    ensures
        final(arena)@.len() == old(arena)@.len(),
        !shadow_too_large(cfg, *program, old(arena)@.len()) && !program_valid(*program) ==> (r matches Err(e)
            && is_validation(e, program_error(*program))),
        !shadow_too_large(cfg, *program, old(arena)@.len()) && program_valid(*program) && !config_valid(cfg, *program)
            ==> (r matches Err(e) && is_validation(e, config_error(cfg, *program))),
        shadow_too_large(cfg, *program, old(arena)@.len()) ==> *final(arena) == *old(arena) && r is Err
            && (r->Err_0 matches FunctionalError::Sanitize(f) && f.kind is ShadowLimit),
        !shadow_too_large(cfg, *program, old(arena)@.len()) && !program_valid(*program) ==> r is Err
            && r->Err_0 is Validation && *final(arena) == *old(arena),
        !shadow_too_large(cfg, *program, old(arena)@.len()) && program_valid(*program) && !config_valid(
            cfg,
            *program,
        ) ==> r is Err && r->Err_0 is Validation && *final(arena) == *old(arena),
        r matches Ok(rep) ==> program_valid(*program) && config_valid(cfg, *program) && run_outcome(
            rep,
            *program,
            cfg,
        ),
        r matches Ok(rep) ==> run_model(*program, cfg, old(arena)@, kernarg@) == Some(
            (final(arena)@, rep.steps as nat, rep.atomics_executed as nat),
        ),
        program_valid(*program) && config_valid(cfg, *program) && cfg.sanitize is Off && run_model(
            *program,
            cfg,
            old(arena)@,
            kernarg@,
        ) is Some ==> r is Ok,
{
    match run_with_config_sanitized(program, cfg, arena, kernarg) {
        Ok((rep, _)) => Ok(rep),
        Err(e) => Err(e),
    }
}

/// The default configuration of a program's launch with a step budget.
fn default_exec_config(program: &Program, launch: LaunchConfig, budget: u64) -> (r: ExecConfig)
    ensures
        r == default_config(launch, *program, budget),
{
    let mut cfg = ExecConfig::from_launch(launch);
    cfg.group_bytes = program.group_bytes;
    cfg.step_budget = budget;
    if program.has_barrier() {
        cfg.schedule = SchedulePolicy::WaveBarrier;
    }
    cfg
}

/// Executes with the default configuration of the launch: default wave
/// size and step budget, the program's group memory, and the wave-barrier
/// schedule exactly when the program has a barrier.
pub fn run(program: &Program, launch: LaunchConfig, arena: &mut GlobalArena, kernarg: &[u8]) -> (r: Result<
    RunReport,
    FunctionalError,
>)
    ensures
        final(arena)@.len() == old(arena)@.len(),
        !program_valid(*program) ==> r is Err && r->Err_0 is Validation && *final(arena) == *old(arena),
        program_valid(*program) && !config_valid(default_config(launch, *program, DEFAULT_STEP_BUDGET), *program)
            ==> r is Err && r->Err_0 is Validation && *final(arena) == *old(arena),
        r matches Ok(rep) ==> program_valid(*program) && run_outcome(
            rep,
            *program,
            default_config(launch, *program, DEFAULT_STEP_BUDGET),
        ),
        r matches Ok(rep) ==> run_model(
            *program,
            default_config(launch, *program, DEFAULT_STEP_BUDGET),
            old(arena)@,
            kernarg@,
        ) == Some((final(arena)@, rep.steps as nat, rep.atomics_executed as nat)),
        program_valid(*program) && config_valid(default_config(launch, *program, DEFAULT_STEP_BUDGET), *program)
            && run_model(
            *program,
            default_config(launch, *program, DEFAULT_STEP_BUDGET),
            old(arena)@,
            kernarg@,
        ) is Some ==> r is Ok,
{
    let cfg = default_exec_config(program, launch, DEFAULT_STEP_BUDGET);
    run_with_config(program, cfg, arena, kernarg)
}

/// `run` with a step budget in place of the default one.
pub fn run_with_budget(
    program: &Program,
    launch: LaunchConfig,
    arena: &mut GlobalArena,
    kernarg: &[u8],
    step_budget: u64,
) -> (r: Result<RunReport, FunctionalError>)
    ensures
        final(arena)@.len() == old(arena)@.len(),
        !program_valid(*program) ==> r is Err && r->Err_0 is Validation && *final(arena) == *old(arena),
        program_valid(*program) && !config_valid(default_config(launch, *program, step_budget), *program) ==> r is Err
            && r->Err_0 is Validation && *final(arena) == *old(arena),
        r matches Ok(rep) ==> program_valid(*program) && run_outcome(
            rep,
            *program,
            default_config(launch, *program, step_budget),
        ),
        r matches Ok(rep) ==> run_model(*program, default_config(launch, *program, step_budget), old(arena)@, kernarg@)
            == Some((final(arena)@, rep.steps as nat, rep.atomics_executed as nat)),
        program_valid(*program) && config_valid(default_config(launch, *program, step_budget), *program) && run_model(
            *program,
            default_config(launch, *program, step_budget),
            old(arena)@,
            kernarg@,
        ) is Some ==> r is Ok,
{
    let cfg = default_exec_config(program, launch, step_budget);
    run_with_config(program, cfg, arena, kernarg)
}

} // verus!
