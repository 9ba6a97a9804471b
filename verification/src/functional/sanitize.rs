//! Shadow-memory sanitizer for functional runs.
//!
//! The declared subset: the shadow tracks, per byte, whether it is
//! unallocated, uninitialized, initialized or freed, and the last access to
//! it. A race is a conflict between different work-items on a byte, with at
//! least one write that is not atomic on both sides: across workgroups always,
//! within a workgroup when no barrier separates the two accesses. Atomics on
//! the same byte never race with each other here, since the interpreter runs
//! them one after another.
use super::error::FunctionalError;
use super::exec::{ExecConfig, SchedulePolicy};
use super::ir::{AddrSpace, Program, TypeId};
use super::memory::{ty_size, type_size};
use crate::text::{cat, cat_string, dec_chars, dec_u64, owned};
use vstd::prelude::*;

verus! {

/// Schema id of sanitizer replay bundles.
pub const SANITIZER_REPLAY_SCHEMA: &'static str = "softgpu-sanitizer-replay-v1";

/// Largest number of shadow bytes (global plus group) a sanitizer keeps.
pub const MAX_SHADOW_BYTES: usize = 4194304;

/// How a run is instrumented.
#[derive(Debug, Clone, Copy, PartialEq, Eq, Structural)]
pub enum SanitizeMode {
    /// No shadow and no race tracking.
    Off,
    /// Record findings; only hard findings stop the run.
    Collect,
    /// Stop at the first finding.
    FailFast,
}

/// Kinds of sanitizer findings.
#[derive(Debug, Clone, Copy, PartialEq, Eq, Structural)]
pub enum FindingKind {
    OutOfBounds,
    UseAfterFree,
    UninitializedRead,
    Race,
    MissingBarrier,
    CrossWorkgroupRace,
    ShadowLimit,
}

/// The work-item that made an access.
#[derive(Debug, Clone, Copy, PartialEq, Eq)]
pub struct WorkItemId {
    pub workgroup: [u32; 3],
    pub wave: u32,
    pub lane: u32,
    pub flat_local: u32,
}

/// One sanitizer finding.
#[derive(Debug, Clone, PartialEq, Eq)]
pub struct Finding {
    pub kind: FindingKind,
    pub space: AddrSpace,
    pub addr: u64,
    pub size: usize,
    pub step: u64,
    pub barrier_gen: u64,
    pub actor: WorkItemId,
    pub other: Option<WorkItemId>,
    pub detail: String,
}

/// Findings that stop a run in every mode.
pub open spec fn is_hard(k: FindingKind) -> bool {
    k is OutOfBounds || k is UseAfterFree || k is ShadowLimit
}

/// The two work-items are in the same workgroup.
pub open spec fn same_workgroup(a: WorkItemId, b: WorkItemId) -> bool {
    a.workgroup[0] == b.workgroup[0] && a.workgroup[1] == b.workgroup[1] && a.workgroup[2] == b.workgroup[2]
}

/// Shadow state of one byte.
#[derive(Debug, Clone, Copy, PartialEq, Eq, Structural)]
pub enum ByteState {
    Unallocated,
    Uninitialized,
    Initialized,
    Freed,
}

/// The last access recorded on a byte.
#[derive(Debug, Clone, Copy)]
pub struct AccessRecord {
    pub actor: WorkItemId,
    pub barrier_gen: u64,
    pub step: u64,
    pub is_write: bool,
    pub is_atomic: bool,
}

/// Shadow of one byte.
#[derive(Debug, Clone, Copy)]
pub struct ByteShadow {
    pub state: ByteState,
    pub last: Option<AccessRecord>,
}

/// The race, if any, between the recorded access `prev` and the current one.
pub open spec fn race_kind_spec(
    prev: AccessRecord,
    cur: WorkItemId,
    cur_gen: u64,
    cur_write: bool,
    cur_atomic: bool,
    space: AddrSpace,
) -> Option<FindingKind> {
    if same_workgroup(prev.actor, cur) && prev.actor.flat_local == cur.flat_local {
        None
    } else if !prev.is_write && !cur_write {
        None
    } else if prev.is_atomic && cur_atomic {
        None
    } else if !same_workgroup(prev.actor, cur) {
        Some(FindingKind::CrossWorkgroupRace)
    } else if prev.barrier_gen == cur_gen {
        Some(
            match space {
                AddrSpace::Group => FindingKind::MissingBarrier,
                AddrSpace::Global => FindingKind::Race,
            },
        )
    } else {
        None
    }
}

/// Two accesses to a byte race exactly when they come from different
/// work-items, at least one writes, they are not both atomic, and they are
/// in different workgroups or in the same barrier generation of one; then
/// the kind is a cross-workgroup race, or within a workgroup a missing
/// barrier in group memory and a race in global memory.
pub proof fn lemma_race_rules(
    prev: AccessRecord,
    cur: WorkItemId,
    cur_gen: u64,
    cur_write: bool,
    cur_atomic: bool,
    space: AddrSpace,
)
    ensures
        race_kind_spec(prev, cur, cur_gen, cur_write, cur_atomic, space) is Some <==> {
            &&& !(same_workgroup(prev.actor, cur) && prev.actor.flat_local == cur.flat_local)
            &&& (prev.is_write || cur_write)
            &&& !(prev.is_atomic && cur_atomic)
            &&& (!same_workgroup(prev.actor, cur) || prev.barrier_gen == cur_gen)
        },
        race_kind_spec(prev, cur, cur_gen, cur_write, cur_atomic, space) matches Some(k) ==> {
            &&& !same_workgroup(prev.actor, cur) ==> k is CrossWorkgroupRace
            &&& same_workgroup(prev.actor, cur) ==> (k == if space is Group {
                FindingKind::MissingBarrier
            } else {
                FindingKind::Race
            })
        },
{
}

/// What is wrong, if anything, with accessing a byte of the given shadow:
/// the finding kind and the other work-item of a race.
pub open spec fn byte_issue(
    b: ByteShadow,
    is_write: bool,
    is_atomic: bool,
    actor: WorkItemId,
    gen: u64,
    space: AddrSpace,
) -> Option<(FindingKind, Option<WorkItemId>)> {
    if b.state is Unallocated {
        Some((FindingKind::OutOfBounds, None))
    } else if b.state is Freed {
        Some((FindingKind::UseAfterFree, None))
    } else if b.state is Uninitialized && !is_write {
        Some((FindingKind::UninitializedRead, None))
    } else {
        match b.last {
            Some(prev) => match race_kind_spec(prev, actor, gen, is_write, is_atomic, space) {
                Some(k) => Some((k, Some(prev.actor))),
                None => None,
            },
            None => None,
        }
    }
}

/// The first byte at or after offset `off` of `map[start..start + size]`
/// whose access is a finding.
pub open spec fn first_issue(
    map: Seq<ByteShadow>,
    start: int,
    size: int,
    off: int,
    is_write: bool,
    is_atomic: bool,
    actor: WorkItemId,
    gen: u64,
    space: AddrSpace,
) -> Option<(int, FindingKind, Option<WorkItemId>)>
    decreases size - off,
{
    if off < 0 || off >= size {
        None
    } else {
        match byte_issue(map[start + off], is_write, is_atomic, actor, gen, space) {
            Some((k, o)) => Some((off, k, o)),
            None => first_issue(map, start, size, off + 1, is_write, is_atomic, actor, gen, space),
        }
    }
}

/// A byte's shadow after a clean access.
pub open spec fn recorded(b: ByteShadow, rec: AccessRecord) -> ByteShadow {
    ByteShadow { state: if rec.is_write { ByteState::Initialized } else { b.state }, last: Some(rec) }
}

/// The explanation attached to a per-byte finding.
pub open spec fn issue_detail(k: FindingKind) -> Seq<char> {
    match k {
        FindingKind::OutOfBounds => "access to unallocated SoftGPU shadow byte"@,
        FindingKind::UseAfterFree => "access to SoftGPU-freed shadow byte"@,
        FindingKind::UninitializedRead => "read of uninitialized SoftGPU shadow byte"@,
        FindingKind::MissingBarrier => "group conflict in same SoftGPU barrier generation without barrier"@,
        FindingKind::Race => "global conflict in same SoftGPU barrier generation (declared SoftGPU HB subset)"@,
        FindingKind::CrossWorkgroupRace => "conflicting SoftGPU global accesses from different workgroups"@,
        FindingKind::ShadowLimit => "SoftGPU happens-before race in declared subset"@,
    }
}

/// The explanation attached to an access outside the shadow.
pub open spec fn bounds_detail(addr: u64, size: nat, map_len: nat) -> Seq<char> {
    if addr > usize::MAX {
        "address does not fit SoftGPU arena"@
    } else if addr + size > usize::MAX {
        "access size overflow"@
    } else {
        "addr+size exceeds arena_len="@ + dec_chars(map_len)
    }
}

/// A finding with exactly these fields.
pub open spec fn finding_is(
    f: Finding,
    kind: FindingKind,
    space: AddrSpace,
    addr: int,
    size: int,
    step: u64,
    gen: u64,
    actor: WorkItemId,
    other: Option<WorkItemId>,
    detail: Seq<char>,
) -> bool {
    &&& f.kind == kind
    &&& f.space == space
    &&& f.addr == addr
    &&& f.size == size
    &&& f.step == step
    &&& f.barrier_gen == gen
    &&& f.actor == actor
    &&& f.other == other
    &&& f.detail@ == detail
}

/// The race, if any, between a recorded access and the current one.
fn race_kind(
    prev: AccessRecord,
    cur: WorkItemId,
    cur_gen: u64,
    cur_write: bool,
    cur_atomic: bool,
    space: AddrSpace,
) -> (r: Option<FindingKind>)
    ensures
        r == race_kind_spec(prev, cur, cur_gen, cur_write, cur_atomic, space),
{
    let same_wg = prev.actor.workgroup[0] == cur.workgroup[0] && prev.actor.workgroup[1] == cur.workgroup[1]
        && prev.actor.workgroup[2] == cur.workgroup[2];
    if same_wg && prev.actor.flat_local == cur.flat_local {
        return None;
    }
    if !prev.is_write && !cur_write {
        return None;
    }
    if prev.is_atomic && cur_atomic {
        return None;
    }
    if !same_wg {
        return Some(FindingKind::CrossWorkgroupRace);
    }
    if prev.barrier_gen == cur_gen {
        return Some(
            match space {
                AddrSpace::Group => FindingKind::MissingBarrier,
                AddrSpace::Global => FindingKind::Race,
            },
        );
    }
    None
}

/// What is wrong, if anything, with accessing a byte of shadow `b`.
fn check_byte(
    b: &ByteShadow,
    is_write: bool,
    is_atomic: bool,
    actor: WorkItemId,
    gen: u64,
    space: AddrSpace,
) -> (r: Option<(FindingKind, Option<WorkItemId>)>)
    ensures
        r == byte_issue(*b, is_write, is_atomic, actor, gen, space),
{
    match b.state {
        ByteState::Unallocated => Some((FindingKind::OutOfBounds, None)),
        ByteState::Freed => Some((FindingKind::UseAfterFree, None)),
        ByteState::Uninitialized if !is_write => Some((FindingKind::UninitializedRead, None)),
        _ => match b.last {
            Some(prev) => match race_kind(prev, actor, gen, is_write, is_atomic, space) {
                Some(k) => Some((k, Some(prev.actor))),
                None => None,
            },
            None => None,
        },
    }
}

/// The explanation attached to a per-byte finding.
fn detail_of(k: FindingKind) -> (r: String)
    ensures
        r@ == issue_detail(k),
{
    match k {
        FindingKind::OutOfBounds => owned("access to unallocated SoftGPU shadow byte"),
        FindingKind::UseAfterFree => owned("access to SoftGPU-freed shadow byte"),
        FindingKind::UninitializedRead => owned("read of uninitialized SoftGPU shadow byte"),
        FindingKind::MissingBarrier => owned("group conflict in same SoftGPU barrier generation without barrier"),
        FindingKind::Race => owned("global conflict in same SoftGPU barrier generation (declared SoftGPU HB subset)"),
        FindingKind::CrossWorkgroupRace => owned("conflicting SoftGPU global accesses from different workgroups"),
        FindingKind::ShadowLimit => owned("SoftGPU happens-before race in declared subset"),
    }
}

/// A shadow map of `n` bytes, each in `state` with no access recorded.
fn uniform_shadow(n: usize, state: ByteState) -> (r: Vec<ByteShadow>)
    ensures
        r@.len() == n,
        forall|j: int| 0 <= j < n ==> (#[trigger] r@[j]).state == state && r@[j].last is None,
{
    let mut v: Vec<ByteShadow> = Vec::new();
    let mut i: usize = 0;
    while i < n
        invariant
            i <= n,
            v@.len() == i,
            forall|j: int| 0 <= j < i ==> (#[trigger] v@[j]).state == state && v@[j].last is None,
        decreases n - i,
    {
        v.push(ByteShadow { state, last: None });
        i = i + 1;
    }
    v
}

/// Sets `map[start..end]` to `state` with no access recorded.
fn set_range(map: &mut Vec<ByteShadow>, start: usize, end: usize, state: ByteState)
    requires
        start <= end <= old(map)@.len(),
    ensures
        final(map)@.len() == old(map)@.len(),
        forall|j: int|
            0 <= j < old(map)@.len() ==> #[trigger] final(map)@[j] == if start <= j < end {
                ByteShadow { state, last: None }
            } else {
                old(map)@[j]
            },
{
    let mut i: usize = start;
    while i < end
        invariant
            start <= i <= end <= map@.len(),
            map@.len() == old(map)@.len(),
            forall|j: int|
                0 <= j < map@.len() ==> #[trigger] map@[j] == if start <= j < i {
                    ByteShadow { state, last: None }
                } else {
                    old(map)@[j]
                },
        decreases end - i,
    {
        map.set(i, ByteShadow { state, last: None });
        i = i + 1;
    }
}

/// One typed access checked by the sanitizer: `before` and `after` are the
/// sanitizer around the check and `r` is what the check returned.
pub open spec fn access_checked(
    before: Sanitizer,
    after: Sanitizer,
    space: AddrSpace,
    addr: u64,
    ty: TypeId,
    is_write: bool,
    is_atomic: bool,
    actor: WorkItemId,
    r: Result<(), FunctionalError>,
) -> bool {
    &&& after.mode_of() == before.mode_of()
    &&& after.gen_of() == before.gen_of()
    &&& after.step_of() == before.step_of()
    &&& forall|sp: AddrSpace| #[trigger] after.shadow(sp).len() == before.shadow(sp).len()
    &&& forall|sp: AddrSpace| sp != space ==> #[trigger] after.shadow(sp) =~= before.shadow(sp)
    &&& before.mode_of() is Off ==> r is Ok && after.shadow(space) =~= before.shadow(space)
        && after.found() =~= before.found()
    &&& ({
        let map = before.shadow(space);
        let size = type_size(ty);
        let gen = before.gen_of();
        let step = before.step_of();
        !(before.mode_of() is Off) ==> if addr + size > map.len() {
            &&& after.shadow(space) =~= map
            &&& after.found().len() == before.found().len() + 1
            &&& after.found().drop_last() =~= before.found()
            &&& finding_is(
                after.found().last(),
                FindingKind::OutOfBounds,
                space,
                addr as int,
                size as int,
                step,
                gen,
                actor,
                None,
                bounds_detail(addr, size, map.len()),
            )
            &&& r == Err::<(), FunctionalError>(FunctionalError::Sanitize(after.found().last()))
        } else {
            match first_issue(map, addr as int, size as int, 0, is_write, is_atomic, actor, gen, space) {
                Some((off, k, o)) => {
                    &&& after.shadow(space) =~= map
                    &&& after.found().len() == before.found().len() + 1
                    &&& after.found().drop_last() =~= before.found()
                    &&& finding_is(
                        after.found().last(),
                        k,
                        space,
                        addr + off,
                        1,
                        step,
                        gen,
                        actor,
                        o,
                        issue_detail(k),
                    )
                    &&& (r is Err <==> (before.mode_of() is FailFast || is_hard(k)))
                    &&& r is Err ==> r == Err::<(), FunctionalError>(
                        FunctionalError::Sanitize(after.found().last()),
                    )
                },
                None => {
                    &&& r is Ok
                    &&& after.found() =~= before.found()
                    &&& forall|j: int|
                        0 <= j < map.len() ==> #[trigger] after.shadow(space)[j] == if addr <= j < addr
                            + size {
                            recorded(
                                map[j],
                                AccessRecord { actor, barrier_gen: gen, step, is_write, is_atomic },
                            )
                        } else {
                            map[j]
                        }
                },
            }
        }
    })
}

/// The error a checked access stops with, if any, given the sanitizer before
/// and after it.
pub open spec fn access_error(
    before: Sanitizer,
    after: Sanitizer,
    space: AddrSpace,
    addr: u64,
    ty: TypeId,
    is_write: bool,
    is_atomic: bool,
    actor: WorkItemId,
) -> Option<FunctionalError> {
    let map = before.shadow(space);
    if before.mode_of() is Off {
        None
    } else if addr + type_size(ty) > map.len() {
        Some(FunctionalError::Sanitize(after.found().last()))
    } else {
        match first_issue(
            map,
            addr as int,
            type_size(ty) as int,
            0,
            is_write,
            is_atomic,
            actor,
            before.gen_of(),
            space,
        ) {
            Some((_, k, _)) => if before.mode_of() is FailFast || is_hard(k) {
                Some(FunctionalError::Sanitize(after.found().last()))
            } else {
                None
            },
            None => None,
        }
    }
}

/// The outcome of a checked access is determined by the sanitizer around it.
pub proof fn lemma_access_error(
    before: Sanitizer,
    after: Sanitizer,
    space: AddrSpace,
    addr: u64,
    ty: TypeId,
    is_write: bool,
    is_atomic: bool,
    actor: WorkItemId,
    r: Result<(), FunctionalError>,
)
    requires
        access_checked(before, after, space, addr, ty, is_write, is_atomic, actor, r),
    ensures
        r is Ok <==> access_error(before, after, space, addr, ty, is_write, is_atomic, actor) is None,
        r is Err ==> access_error(before, after, space, addr, ty, is_write, is_atomic, actor) == Some(r->Err_0),
{
}

/// The launch settings a finding was made under.
#[derive(Debug, Clone, Copy, PartialEq, Eq)]
pub struct ReplayExec {
    pub grid: [u32; 3],
    pub workgroup: [u32; 3],
    pub wave_size: u32,
    pub group_bytes: u32,
    pub schedule: SchedulePolicy,
    pub step_budget: u64,
}

/// Everything needed to replay a finding deterministically.
#[derive(Debug, Clone, PartialEq, Eq)]
pub struct ReplayBundle {
    pub schema: String,
    pub program_name: String,
    pub source_provenance: String,
    pub exec_cfg: ReplayExec,
    pub finding: Finding,
}

impl ReplayBundle {
    /// The replay bundle of `finding`, made by running `program` under `cfg`.
    pub fn from_finding(program: &Program, cfg: &ExecConfig, finding: Finding) -> (r: Self)
        ensures
            r.schema@ == SANITIZER_REPLAY_SCHEMA@,
            r.program_name@ == program.name@,
            r.source_provenance@ == program.source_provenance@,
            r.exec_cfg.grid == cfg.launch.grid,
            r.exec_cfg.workgroup == cfg.launch.workgroup,
            r.exec_cfg.wave_size == cfg.wave_size,
            r.exec_cfg.group_bytes == if cfg.group_bytes >= program.group_bytes {
                cfg.group_bytes
            } else {
                program.group_bytes
            },
            r.exec_cfg.schedule == cfg.schedule,
            r.exec_cfg.step_budget == cfg.step_budget,
            r.finding == finding,
    {
        ReplayBundle {
            schema: owned(SANITIZER_REPLAY_SCHEMA),
            program_name: program.name.clone(),
            source_provenance: program.source_provenance.clone(),
            exec_cfg: ReplayExec {
                grid: cfg.launch.grid,
                workgroup: cfg.launch.workgroup,
                wave_size: cfg.wave_size,
                group_bytes: if cfg.group_bytes >= program.group_bytes {
                    cfg.group_bytes
                } else {
                    program.group_bytes
                },
                schedule: cfg.schedule,
                step_budget: cfg.step_budget,
            },
            finding,
        }
    }
}

/// A copy of a finding.
pub fn copy_finding(f: &Finding) -> (r: Finding)
    ensures
        r == *f,
{
    Finding {
        kind: f.kind,
        space: f.space,
        addr: f.addr,
        size: f.size,
        step: f.step,
        barrier_gen: f.barrier_gen,
        actor: f.actor,
        other: f.other,
        detail: f.detail.clone(),
    }
}

/// The sanitizer: shadows of global and group memory and the findings so far.
#[derive(Debug)]
pub struct Sanitizer {
    mode: SanitizeMode,
    global: Vec<ByteShadow>,
    group: Vec<ByteShadow>,
    findings: Vec<Finding>,
    /// Barrier generation within the current workgroup.
    pub barrier_gen: u64,
    /// Lane steps executed so far in the run.
    pub step: u64,
}

/// The findings and the mode a run reports.
#[derive(Debug, Clone, PartialEq, Eq)]
pub struct SanitizeReport {
    pub fidelity: &'static str,
    pub mode: &'static str,
    pub note: &'static str,
    pub findings: Vec<Finding>,
}

impl SanitizeReport {
    /// A report with no findings.
    pub fn clean() -> (r: Self)
        ensures
            r.fidelity@ == "sanitized"@,
            r.mode@ == "softgpu_functional_sanitizer_v1"@,
            r.note@ == "not_gfx1201_isa_emulation"@,
            r.findings@.len() == 0,
    {
        SanitizeReport {
            fidelity: "sanitized",
            mode: "softgpu_functional_sanitizer_v1",
            note: "not_gfx1201_isa_emulation",
            findings: Vec::new(),
        }
    }

    /// No finding was recorded.
    pub fn ok(&self) -> (r: bool)
        ensures
            r == (self.findings@.len() == 0),
    {
        self.findings.len() == 0
    }
}

impl Sanitizer {
    pub closed spec fn mode_of(&self) -> SanitizeMode {
        self.mode
    }

    /// The current barrier generation.
    pub closed spec fn gen_of(&self) -> u64 {
        self.barrier_gen
    }

    /// Lane steps executed so far.
    pub closed spec fn step_of(&self) -> u64 {
        self.step
    }

    /// The shadow of an address space.
    pub closed spec fn shadow(&self, space: AddrSpace) -> Seq<ByteShadow> {
        match space {
            AddrSpace::Global => self.global@,
            AddrSpace::Group => self.group@,
        }
    }

    /// The findings recorded so far.
    pub closed spec fn found(&self) -> Seq<Finding> {
        self.findings@
    }

    /// A sanitizer for `global_len` bytes of global memory and `group_len`
    /// bytes of group memory. Global bytes start initialized, group bytes
    /// uninitialized. With `Off` the shadows are empty. The shadows together
    /// may hold at most `MAX_SHADOW_BYTES` bytes.
    pub fn new(mode: SanitizeMode, global_len: usize, group_len: usize) -> (r: Result<Self, FunctionalError>)
        ensures
            mode is Off ==> r is Ok,
            !(mode is Off) ==> (r is Ok <==> global_len + group_len <= MAX_SHADOW_BYTES),
            r matches Ok(s) ==> {
                &&& s.mode_of() == mode
                &&& s.found().len() == 0
                &&& s.gen_of() == 0
                &&& s.step_of() == 0
                &&& mode is Off ==> s.shadow(AddrSpace::Global).len() == 0 && s.shadow(AddrSpace::Group).len() == 0
                &&& !(mode is Off) ==> {
                    &&& s.shadow(AddrSpace::Global).len() == global_len
                    &&& s.shadow(AddrSpace::Group).len() == group_len
                    &&& forall|j: int|
                        0 <= j < global_len ==> (#[trigger] s.shadow(AddrSpace::Global)[j]).state is Initialized
                            && s.shadow(AddrSpace::Global)[j].last is None
                    &&& forall|j: int|
                        0 <= j < group_len ==> (#[trigger] s.shadow(AddrSpace::Group)[j]).state is Uninitialized
                            && s.shadow(AddrSpace::Group)[j].last is None
                }
            },
            r matches Err(e) ==> e matches FunctionalError::Sanitize(f) && f.kind is ShadowLimit && f.size == (
            if global_len + group_len > usize::MAX {
                usize::MAX as int
            } else {
                global_len + group_len
            }),
    {
        if matches!(mode, SanitizeMode::Off) {
            return Ok(
                Sanitizer {
                    mode,
                    global: Vec::new(),
                    group: Vec::new(),
                    findings: Vec::new(),
                    barrier_gen: 0,
                    step: 0,
                },
            );
        }
        let total = global_len.saturating_add(group_len);
        if total > MAX_SHADOW_BYTES {
            let d = cat_string(owned("shadow bytes "), dec_u64(total as u64));
            let d = cat_string(cat(d, " > SoftGPU max "), dec_u64(MAX_SHADOW_BYTES as u64));
            return Err(
                FunctionalError::Sanitize(
                    Finding {
                        kind: FindingKind::ShadowLimit,
                        space: AddrSpace::Global,
                        addr: 0,
                        size: total,
                        step: 0,
                        barrier_gen: 0,
                        actor: WorkItemId { workgroup: [0, 0, 0], wave: 0, lane: 0, flat_local: 0 },
                        other: None,
                        detail: d,
                    },
                ),
            );
        }
        Ok(
            Sanitizer {
                mode,
                global: uniform_shadow(global_len, ByteState::Initialized),
                group: uniform_shadow(group_len, ByteState::Uninitialized),
                findings: Vec::new(),
                barrier_gen: 0,
                step: 0,
            },
        )
    }

    /// Lane steps executed so far.
    pub fn step_count(&self) -> (r: u64)
        ensures
            r == self.step_of(),
    {
        self.step
    }

    /// The current barrier generation.
    pub fn generation(&self) -> (r: u64)
        ensures
            r == self.gen_of(),
    {
        self.barrier_gen
    }

    pub fn mode(&self) -> (r: SanitizeMode)
        ensures
            r == self.mode_of(),
    {
        self.mode
    }

    pub fn findings(&self) -> (r: &[Finding])
        ensures
            r@ == self.found(),
    {
        self.findings.as_slice()
    }

    /// The report of a finished run: the recorded findings.
    pub fn into_report(self) -> (r: SanitizeReport)
        ensures
            r.findings@ == self.found(),
            r.fidelity@ == "sanitized"@,
            r.mode@ == "softgpu_functional_sanitizer_v1"@,
            r.note@ == "not_gfx1201_isa_emulation"@,
    {
        let mut r = SanitizeReport::clean();
        r.findings = self.findings;
        r
    }

    /// Starts a workgroup: every group byte becomes uninitialized with no
    /// access recorded.
    pub fn reset_group(&mut self)
        ensures
            final(self).mode_of() == old(self).mode_of(),
            final(self).found() == old(self).found(),
            final(self).gen_of() == old(self).gen_of(),
            final(self).step_of() == old(self).step_of(),
            final(self).shadow(AddrSpace::Global) == old(self).shadow(AddrSpace::Global),
            final(self).shadow(AddrSpace::Group).len() == old(self).shadow(AddrSpace::Group).len(),
            forall|j: int|
                0 <= j < old(self).shadow(AddrSpace::Group).len() ==> (#[trigger] final(self).shadow(
                    AddrSpace::Group,
                )[j]).state is Uninitialized && final(self).shadow(AddrSpace::Group)[j].last is None,
    {
        let n = self.group.len();
        set_range(&mut self.group, 0, n, ByteState::Uninitialized);
    }

    /// Sets bytes `addr..addr + len` (clipped to the shadow) to `state` with
    /// no access recorded; nothing changes with `Off` or `len == 0`.
    fn mark(&mut self, space: AddrSpace, addr: u64, len: usize, state: ByteState)
        requires
            old(self).mode_of() is Off || len == 0 || addr + len <= usize::MAX,
        ensures
            final(self).mode_of() == old(self).mode_of(),
            final(self).found() == old(self).found(),
            final(self).gen_of() == old(self).gen_of(),
            final(self).step_of() == old(self).step_of(),
            forall|sp: AddrSpace| #[trigger] final(self).shadow(sp).len() == old(self).shadow(sp).len(),
            forall|sp: AddrSpace| sp != space ==> #[trigger] final(self).shadow(sp) == old(self).shadow(sp),
            forall|j: int|
                0 <= j < old(self).shadow(space).len() ==> #[trigger] final(self).shadow(space)[j] == if !(old(
                    self,
                ).mode_of() is Off) && addr <= j < addr + len {
                    ByteShadow { state, last: None }
                } else {
                    old(self).shadow(space)[j]
                },
    {
        if matches!(self.mode, SanitizeMode::Off) || len == 0 {
            return;
        }
        let start = addr as usize;
        match space {
            AddrSpace::Global => {
                let n = self.global.len();
                let end = if start + len < n { start + len } else { n };
                let s = if start < end { start } else { end };
                set_range(&mut self.global, s, end, state);
            },
            AddrSpace::Group => {
                let n = self.group.len();
                let end = if start + len < n { start + len } else { n };
                let s = if start < end { start } else { end };
                set_range(&mut self.group, s, end, state);
            },
        }
    }

    /// Marks bytes as allocated but not yet written.
    pub fn mark_allocated(&mut self, space: AddrSpace, addr: u64, len: usize)
        requires
            old(self).mode_of() is Off || len == 0 || addr + len <= usize::MAX,
        ensures
            final(self).mode_of() == old(self).mode_of(),
            final(self).found() == old(self).found(),
            final(self).gen_of() == old(self).gen_of(),
            final(self).step_of() == old(self).step_of(),
            forall|sp: AddrSpace| #[trigger] final(self).shadow(sp).len() == old(self).shadow(sp).len(),
            forall|sp: AddrSpace| sp != space ==> #[trigger] final(self).shadow(sp) == old(self).shadow(sp),
            forall|j: int|
                0 <= j < old(self).shadow(space).len() ==> #[trigger] final(self).shadow(space)[j] == if !(old(
                    self,
                ).mode_of() is Off) && addr <= j < addr + len {
                    ByteShadow { state: ByteState::Uninitialized, last: None }
                } else {
                    old(self).shadow(space)[j]
                },
    {
        self.mark(space, addr, len, ByteState::Uninitialized)
    }

    /// Marks bytes as written.
    pub fn mark_initialized(&mut self, space: AddrSpace, addr: u64, len: usize)
        requires
            old(self).mode_of() is Off || len == 0 || addr + len <= usize::MAX,
        ensures
            final(self).mode_of() == old(self).mode_of(),
            final(self).found() == old(self).found(),
            final(self).gen_of() == old(self).gen_of(),
            final(self).step_of() == old(self).step_of(),
            forall|sp: AddrSpace| #[trigger] final(self).shadow(sp).len() == old(self).shadow(sp).len(),
            forall|sp: AddrSpace| sp != space ==> #[trigger] final(self).shadow(sp) == old(self).shadow(sp),
            forall|j: int|
                0 <= j < old(self).shadow(space).len() ==> #[trigger] final(self).shadow(space)[j] == if !(old(
                    self,
                ).mode_of() is Off) && addr <= j < addr + len {
                    ByteShadow { state: ByteState::Initialized, last: None }
                } else {
                    old(self).shadow(space)[j]
                },
    {
        self.mark(space, addr, len, ByteState::Initialized)
    }

    /// Marks bytes as allocated but not yet written.
    pub fn mark_uninitialized(&mut self, space: AddrSpace, addr: u64, len: usize)
        requires
            old(self).mode_of() is Off || len == 0 || addr + len <= usize::MAX,
        ensures
            final(self).mode_of() == old(self).mode_of(),
            final(self).found() == old(self).found(),
            final(self).gen_of() == old(self).gen_of(),
            final(self).step_of() == old(self).step_of(),
            forall|sp: AddrSpace| #[trigger] final(self).shadow(sp).len() == old(self).shadow(sp).len(),
            forall|sp: AddrSpace| sp != space ==> #[trigger] final(self).shadow(sp) == old(self).shadow(sp),
            forall|j: int|
                0 <= j < old(self).shadow(space).len() ==> #[trigger] final(self).shadow(space)[j] == if !(old(
                    self,
                ).mode_of() is Off) && addr <= j < addr + len {
                    ByteShadow { state: ByteState::Uninitialized, last: None }
                } else {
                    old(self).shadow(space)[j]
                },
    {
        self.mark_allocated(space, addr, len)
    }

    /// Marks bytes as freed: any later access to them is a use after free.
    pub fn mark_freed(&mut self, space: AddrSpace, addr: u64, len: usize)
        requires
            old(self).mode_of() is Off || len == 0 || addr + len <= usize::MAX,
        ensures
            final(self).mode_of() == old(self).mode_of(),
            final(self).found() == old(self).found(),
            final(self).gen_of() == old(self).gen_of(),
            final(self).step_of() == old(self).step_of(),
            forall|sp: AddrSpace| #[trigger] final(self).shadow(sp).len() == old(self).shadow(sp).len(),
            forall|sp: AddrSpace| sp != space ==> #[trigger] final(self).shadow(sp) == old(self).shadow(sp),
            forall|j: int|
                0 <= j < old(self).shadow(space).len() ==> #[trigger] final(self).shadow(space)[j] == if !(old(
                    self,
                ).mode_of() is Off) && addr <= j < addr + len {
                    ByteShadow { state: ByteState::Freed, last: None }
                } else {
                    old(self).shadow(space)[j]
                },
    {
        self.mark(space, addr, len, ByteState::Freed)
    }

    /// Starts a workgroup: group bytes become uninitialized with no access
    /// recorded, and the barrier generation restarts at zero.
    pub fn begin_workgroup(&mut self)
        ensures
            final(self).mode_of() == old(self).mode_of(),
            final(self).found() == old(self).found(),
            final(self).gen_of() == 0,
            final(self).step_of() == old(self).step_of(),
            final(self).shadow(AddrSpace::Global) == old(self).shadow(AddrSpace::Global),
            final(self).shadow(AddrSpace::Group).len() == old(self).shadow(AddrSpace::Group).len(),
            forall|j: int|
                0 <= j < old(self).shadow(AddrSpace::Group).len() ==> (#[trigger] final(self).shadow(
                    AddrSpace::Group,
                )[j]).state is Uninitialized && final(self).shadow(AddrSpace::Group)[j].last is None,
    {
        self.reset_group();
        self.barrier_gen = 0;
    }

    /// Counts one more lane step (saturating).
    pub fn tick(&mut self)
        ensures
            final(self).mode_of() == old(self).mode_of(),
            final(self).found() == old(self).found(),
            final(self).gen_of() == old(self).gen_of(),
            forall|sp: AddrSpace| #[trigger] final(self).shadow(sp) == old(self).shadow(sp),
            final(self).step_of() == if old(self).step_of() == u64::MAX {
                u64::MAX
            } else {
                (old(self).step_of() + 1) as u64
            },
    {
        self.step = self.step.saturating_add(1);
    }

    /// Moves to the next barrier generation.
    pub fn note_barrier(&mut self)
        ensures
            final(self).mode_of() == old(self).mode_of(),
            final(self).found() == old(self).found(),
            final(self).step_of() == old(self).step_of(),
            forall|sp: AddrSpace| #[trigger] final(self).shadow(sp) == old(self).shadow(sp),
            final(self).gen_of() == if old(self).gen_of() == u64::MAX {
                u64::MAX
            } else {
                (old(self).gen_of() + 1) as u64
            },
    {
        self.barrier_gen = self.barrier_gen.saturating_add(1);
    }

    /// Records a finding; it stops the run when the mode is fail-fast or the
    /// finding is hard.
    fn push_finding(&mut self, finding: Finding) -> (r: Result<(), FunctionalError>)
        ensures
            final(self).mode_of() == old(self).mode_of(),
            final(self).found() == old(self).found().push(finding),
            final(self).gen_of() == old(self).gen_of(),
            final(self).step_of() == old(self).step_of(),
            forall|sp: AddrSpace| #[trigger] final(self).shadow(sp) == old(self).shadow(sp),
            r is Err <==> (old(self).mode_of() is FailFast || is_hard(finding.kind)),
            r is Err ==> r == Err::<(), FunctionalError>(FunctionalError::Sanitize(finding)),
    {
        let hard = matches!(
            finding.kind,
            FindingKind::OutOfBounds | FindingKind::UseAfterFree | FindingKind::ShadowLimit
        );
        let stop = matches!(self.mode, SanitizeMode::FailFast) || hard;
        let ghost f = finding;
        if stop {
            let copy = Finding {
                kind: finding.kind,
                space: finding.space,
                addr: finding.addr,
                size: finding.size,
                step: finding.step,
                barrier_gen: finding.barrier_gen,
                actor: finding.actor,
                other: finding.other,
                detail: finding.detail.clone(),
            };
            self.findings.push(finding);
            assert(copy == f);
            return Err(FunctionalError::Sanitize(copy));
        }
        self.findings.push(finding);
        Ok(())
    }

    /// Checks one typed access of `ty` at `addr` by `actor` and, when it is
    /// clean, records it on each byte. With `Off` nothing is checked or
    /// changed. An access outside the shadow, or to an unallocated or freed
    /// byte, is a hard finding; the first byte with a finding stops the check
    /// and nothing is recorded.
    pub fn on_access(
        &mut self,
        space: AddrSpace,
        addr: u64,
        ty: TypeId,
        is_write: bool,
        is_atomic: bool,
        actor: WorkItemId,
    ) -> (r: Result<(), FunctionalError>)
        ensures
            access_checked(*old(self), *final(self), space, addr, ty, is_write, is_atomic, actor, r),
    {
        if matches!(self.mode, SanitizeMode::Off) {
            return Ok(());
        }
        let size = ty_size(ty);
        let map_len = match space {
            AddrSpace::Global => self.global.len(),
            AddrSpace::Group => self.group.len(),
        };
        let ghost map = self.shadow(space);
        let gen = self.barrier_gen;
        let step = self.step;
        if addr > usize::MAX as u64 || addr as usize > usize::MAX - size || addr as usize + size > map_len {
            let detail = if addr > usize::MAX as u64 {
                owned("address does not fit SoftGPU arena")
            } else if addr as usize > usize::MAX - size {
                owned("access size overflow")
            } else {
                cat_string(owned("addr+size exceeds arena_len="), dec_u64(map_len as u64))
            };
            return self.push_finding(
                Finding {
                    kind: FindingKind::OutOfBounds,
                    space,
                    addr,
                    size,
                    step,
                    barrier_gen: gen,
                    actor,
                    other: None,
                    detail,
                },
            );
        }
        let start = addr as usize;
        let mut off: usize = 0;
        while off < size
            invariant
                self.mode_of() == old(self).mode_of(),
                !(self.mode_of() is Off),
                *self == *old(self),
                map == self.shadow(space),
                map_len == map.len(),
                size == type_size(ty),
                start == addr,
                start + size <= map_len,
                gen == self.barrier_gen,
                step == self.step,
                off <= size,
                first_issue(map, start as int, size as int, 0, is_write, is_atomic, actor, gen, space)
                    == first_issue(map, start as int, size as int, off as int, is_write, is_atomic, actor, gen, space),
            decreases size - off,
        {
            let b = match space {
                AddrSpace::Global => self.global[start + off],
                AddrSpace::Group => self.group[start + off],
            };
            let issue = check_byte(&b, is_write, is_atomic, actor, gen, space);
            match issue {
                Some((kind, other)) => {
                    let detail = detail_of(kind);
                    let a = addr + off as u64;
                    return self.push_finding(
                        Finding { kind, space, addr: a, size: 1, step, barrier_gen: gen, actor, other, detail },
                    );
                },
                None => {},
            }
            off = off + 1;
        }
        let rec = AccessRecord { actor, barrier_gen: gen, step, is_write, is_atomic };
        let mut j: usize = 0;
        while j < size
            invariant
                self.mode_of() == old(self).mode_of(),
                self.findings@ == old(self).findings@,
                self.barrier_gen == old(self).gen_of(),
                self.step == old(self).step_of(),
                self.global@.len() == old(self).global@.len(),
                self.group@.len() == old(self).group@.len(),
                space is Global ==> self.group@ == old(self).group@,
                space is Group ==> self.global@ == old(self).global@,
                map == old(self).shadow(space),
                map_len == map.len(),
                size == type_size(ty),
                start == addr,
                start + size <= map_len,
                j <= size,
                rec == (AccessRecord { actor, barrier_gen: gen, step, is_write, is_atomic }),
                forall|i: int|
                    0 <= i < map.len() ==> #[trigger] self.shadow(space)[i] == if start <= i < start + j {
                        recorded(map[i], rec)
                    } else {
                        map[i]
                    },
            decreases size - j,
        {
            assert(self.shadow(space).len() == map.len());
            match space {
                AddrSpace::Global => {
                    let b = self.global[start + j];
                    let nb = ByteShadow {
                        state: if is_write { ByteState::Initialized } else { b.state },
                        last: Some(rec),
                    };
                    self.global.set(start + j, nb);
                },
                AddrSpace::Group => {
                    let b = self.group[start + j];
                    let nb = ByteShadow {
                        state: if is_write { ByteState::Initialized } else { b.state },
                        last: Some(rec),
                    };
                    self.group.set(start + j, nb);
                },
            }
            j = j + 1;
        }
        assert forall|sp: AddrSpace| #[trigger] self.shadow(sp).len() == old(self).shadow(sp).len() by {
            match sp {
                AddrSpace::Global => {},
                AddrSpace::Group => {},
            }
        }
        assert forall|sp: AddrSpace| sp != space implies #[trigger] self.shadow(sp) == old(self).shadow(sp) by {
            match sp {
                AddrSpace::Global => {},
                AddrSpace::Group => {},
            }
        }
        Ok(())
    }
}

} // verus!
