//! Debugger and deterministic exploration for functional runs.
//!
//! Traces are versioned event logs with a hard event budget. Breakpoints
//! stop after a given lane step or at a memory access, with a snapshot of the
//! lane's registers. Source mapping is never invented: a snapshot carries only
//! the program's provenance string. Exploration tries seeded wave sizes for a
//! race, then shrinks the workgroup and the step budget of the first hit.
use super::error::FunctionalError;
use super::exec::{
    config_valid, run_outcome, run_with_config_sanitized, run_with_observer, shadow_too_large, ExecConfig,
    LaunchConfig, RunReport, SchedulePolicy,
};
use super::ir::{program_valid, AddrSpace, Op, Program};
use super::memory::GlobalArena;
use super::model::run_model;
use crate::bytes::zeros;
use super::regs::Registers;
use super::sanitize::{copy_finding, Finding, FindingKind, ReplayBundle, SanitizeMode, SanitizeReport, WorkItemId};
use crate::text::{cat_string, dec_chars, dec_u64, owned};
use vstd::prelude::*;

verus! {

/// Schema id of debug traces.
pub const DEBUG_TRACE_SCHEMA: &'static str = "softgpu-debug-trace-v1";

/// Default number of events a trace may hold.
pub const DEFAULT_TRACE_EVENT_BUDGET: usize = 65536;

/// Largest serialized trace accepted as input.
pub const MAX_TRACE_BYTES: usize = 8388608;

/// Largest serialized trace line accepted as input.
pub const MAX_TRACE_LINE_BYTES: usize = 65536;

/// What an observer asks of the run after a lane step.
#[derive(Debug, Clone, Copy, PartialEq, Eq, Structural)]
pub enum DebugAction {
    Continue,
    Break,
}

/// Where a debug run stops.
#[derive(Debug, Clone, Copy, PartialEq, Eq, Structural)]
pub enum Breakpoint {
    /// After lane step `step` (counted from 1 over the whole run).
    AfterStep { step: u64 },
    /// After any global or group load, store or atomic.
    OnMemoryAccess,
}

/// One event of a debug trace.
#[derive(Debug, Clone, PartialEq, Eq)]
pub enum TraceEvent {
    Header {
        schema: String,
        program_name: String,
        source_provenance: String,
        grid: [u32; 3],
        workgroup: [u32; 3],
        wave_size: u32,
        schedule: SchedulePolicy,
        schedule_seed: u64,
        note: String,
    },
    Step { step: u64, barrier_gen: u64, actor: WorkItemId, op: String },
    MemoryAccess { step: u64, space: AddrSpace, addr: u64, is_write: bool, is_atomic: bool, actor: WorkItemId },
    Barrier { barrier_gen: u64 },
    Break { step: u64, reason: String },
    SanitizeFinding { finding: Finding },
    Done { steps: u64, workitems: u64 },
}

/// Lane state at a stop. `source_mapping` is always absent: no mapping from
/// IR to source lines exists, and none is made up.
#[derive(Debug, Clone, PartialEq, Eq)]
pub struct StateSnapshot {
    pub step: u64,
    pub barrier_gen: u64,
    pub actor: WorkItemId,
    pub op: String,
    pub registers: Vec<(String, i64)>,
    pub source_provenance: String,
    pub source_mapping: Option<()>,
}

impl StateSnapshot {
    /// A snapshot of a lane after `op` at `step`.
    pub fn from_lane(
        step: u64,
        barrier_gen: u64,
        actor: WorkItemId,
        op: &str,
        regs: &Registers,
        program: &Program,
    ) -> (r: Self)
        ensures
            r.step == step,
            r.barrier_gen == barrier_gen,
            r.actor == actor,
            r.op@ == op@,
            r.registers@ == regs.entries(),
            r.source_provenance@ == program.source_provenance@,
            r.source_mapping is None,
    {
        StateSnapshot {
            step,
            barrier_gen,
            actor,
            op: owned(op),
            registers: regs.snapshot(),
            source_provenance: program.source_provenance.clone(),
            source_mapping: None,
        }
    }
}

/// Why a debug run stopped, with the lane state at the stop.
#[derive(Debug, Clone, PartialEq, Eq)]
pub struct DebugStop {
    pub reason: String,
    pub snapshot: StateSnapshot,
}

/// A bounded event log.
#[derive(Debug)]
pub struct TraceLog {
    events: Vec<TraceEvent>,
    budget: usize,
    /// The budget an exhaustion error names.
    stated: usize,
    exhausted: bool,
}

/// The detail of the error a full trace log answers a push with.
pub open spec fn budget_exhausted_detail(budget: nat) -> Seq<char> {
    "debug trace event budget exhausted (budget="@ + dec_chars(budget) + ")"@
}

/// The error a full trace log of stated budget `budget` answers a push with.
pub open spec fn is_budget_error(e: FunctionalError, budget: nat) -> bool {
    e matches FunctionalError::Validation { detail } && detail@ == budget_exhausted_detail(budget)
}

impl TraceLog {
    pub closed spec fn log(&self) -> Seq<TraceEvent> {
        self.events@
    }

    pub closed spec fn capacity(&self) -> nat {
        self.budget as nat
    }

    pub closed spec fn was_exhausted(&self) -> bool {
        self.exhausted
    }

    pub closed spec fn stated_budget(&self) -> nat {
        self.stated as nat
    }

    /// An empty log for at most `budget` events (at least one).
    pub fn new(budget: usize) -> (r: Self)
        ensures
            r.log().len() == 0,
            r.capacity() == if budget == 0 { 1 } else { budget as nat },
            r.stated_budget() == r.capacity(),
            !r.was_exhausted(),
    {
        let b = if budget == 0 { 1 } else { budget };
        TraceLog { events: Vec::new(), budget: b, stated: b, exhausted: false }
    }

    /// Appends an event; a full log refuses it and is marked exhausted.
    pub fn push(&mut self, ev: TraceEvent) -> (r: Result<(), FunctionalError>)
        ensures
            final(self).capacity() == old(self).capacity(),
            final(self).stated_budget() == old(self).stated_budget(),
            old(self).log().len() >= old(self).capacity() ==> r is Err && is_budget_error(
                r->Err_0,
                old(self).stated_budget(),
            ) && final(self).log() == old(self).log() && final(self).was_exhausted(),
            old(self).log().len() < old(self).capacity() ==> r is Ok && final(self).log() == old(self).log().push(ev)
                && final(self).was_exhausted() == old(self).was_exhausted(),
    {
        if self.events.len() >= self.budget {
            self.exhausted = true;
            let d = cat_string(owned("debug trace event budget exhausted (budget="), dec_u64(self.stated as u64));
            return Err(FunctionalError::Validation { detail: crate::text::cat(d, ")") });
        }
        self.events.push(ev);
        Ok(())
    }

    pub fn events(&self) -> (r: &[TraceEvent])
        ensures
            r@ == self.log(),
    {
        self.events.as_slice()
    }

    /// An empty log for exactly `capacity` events, naming `stated` as its
    /// budget when full.
    fn with_capacity(capacity: usize, stated: usize) -> (r: Self)
        ensures
            r.log().len() == 0,
            r.capacity() == capacity,
            r.stated_budget() == stated,
            !r.was_exhausted(),
    {
        TraceLog { events: Vec::new(), budget: capacity, stated, exhausted: false }
    }

    /// `first` followed by the events of `rest`, with room for one more.
    fn after_header(first: TraceEvent, rest: TraceLog) -> (r: Self)
        ensures
            r.log() == seq![first] + rest.log(),
            r.capacity() == if rest.capacity() < usize::MAX { rest.capacity() + 1 } else { usize::MAX as nat },
            r.stated_budget() == rest.stated_budget(),
            r.was_exhausted() == rest.was_exhausted(),
    {
        let mut events: Vec<TraceEvent> = Vec::new();
        events.push(first);
        let mut rest = rest;
        let ghost tail = rest.events@;
        events.append(&mut rest.events);
        assert(events@ =~= seq![first] + tail);
        let budget = if rest.budget < usize::MAX { rest.budget + 1 } else { usize::MAX };
        TraceLog { events, budget, stated: rest.stated, exhausted: rest.exhausted }
    }

    pub fn exhausted(&self) -> (r: bool)
        ensures
            r == self.was_exhausted(),
    {
        self.exhausted
    }
}

/// The label of an op in trace events.
pub open spec fn op_label_spec(op: Op) -> Seq<char> {
    match op {
        Op::Const { .. } => "const"@,
        Op::GlobalId { .. } => "global_id"@,
        Op::LocalId { .. } => "local_id"@,
        Op::WorkgroupId { .. } => "workgroup_id"@,
        Op::LaneId { .. } => "lane_id"@,
        Op::WaveId { .. } => "wave_id"@,
        Op::WaveSize { .. } => "wave_size"@,
        Op::Add { .. } => "add"@,
        Op::Sub { .. } => "sub"@,
        Op::Mul { .. } => "mul"@,
        Op::CmpEq { .. } => "cmp_eq"@,
        Op::CmpNe { .. } => "cmp_ne"@,
        Op::And { .. } => "and"@,
        Op::KernargLoad { .. } => "kernarg_load"@,
        Op::LoadGlobal { .. } => "load_global"@,
        Op::StoreGlobal { .. } => "store_global"@,
        Op::LoadGroup { .. } => "load_group"@,
        Op::StoreGroup { .. } => "store_group"@,
        Op::AtomicAdd { .. } => "atomic_add"@,
        Op::Barrier => "barrier"@,
        Op::If { .. } => "if"@,
        Op::While { .. } => "while"@,
        Op::Ret => "ret"@,
    }
}

/// The label of an op in trace events.
pub fn op_label(op: &Op) -> (r: String)
    ensures
        r@ == op_label_spec(*op),
{
    let s = match op {
        Op::Const { .. } => "const",
        Op::GlobalId { .. } => "global_id",
        Op::LocalId { .. } => "local_id",
        Op::WorkgroupId { .. } => "workgroup_id",
        Op::LaneId { .. } => "lane_id",
        Op::WaveId { .. } => "wave_id",
        Op::WaveSize { .. } => "wave_size",
        Op::Add { .. } => "add",
        Op::Sub { .. } => "sub",
        Op::Mul { .. } => "mul",
        Op::CmpEq { .. } => "cmp_eq",
        Op::CmpNe { .. } => "cmp_ne",
        Op::And { .. } => "and",
        Op::KernargLoad { .. } => "kernarg_load",
        Op::LoadGlobal { .. } => "load_global",
        Op::StoreGlobal { .. } => "store_global",
        Op::LoadGroup { .. } => "load_group",
        Op::StoreGroup { .. } => "store_group",
        Op::AtomicAdd { .. } => "atomic_add",
        Op::Barrier => "barrier",
        Op::If { .. } => "if",
        Op::While { .. } => "while",
        Op::Ret => "ret",
    };
    owned(s)
}

/// The op touches global or group memory.
pub open spec fn is_memory_op_spec(op: Op) -> bool {
    op is LoadGlobal || op is StoreGlobal || op is LoadGroup || op is StoreGroup || op is AtomicAdd
}

/// The op touches global or group memory.
pub fn is_memory_op(op: &Op) -> (r: bool)
    ensures
        r == is_memory_op_spec(*op),
{
    matches!(
        op,
        Op::LoadGlobal { .. } | Op::StoreGlobal { .. } | Op::LoadGroup { .. } | Op::StoreGroup { .. }
            | Op::AtomicAdd { .. }
    )
}

/// The first breakpoint reason that applies after lane step `step` ran `op`.
pub open spec fn break_reason(single_step: bool, bps: Seq<Breakpoint>, step: u64, op: Op) -> Option<Seq<char>>
    decreases bps.len(),
{
    if single_step {
        Some("single_step"@)
    } else if bps.len() == 0 {
        None
    } else {
        match break_reason(false, bps.drop_last(), step, op) {
            Some(r) => Some(r),
            None => match bps.last() {
                Breakpoint::AfterStep { step: s } => if s == step {
                    Some("after_step"@)
                } else {
                    None
                },
                Breakpoint::OnMemoryAccess => if is_memory_op_spec(op) {
                    Some("memory_access"@)
                } else {
                    None
                },
            },
        }
    }
}

/// `reason` is one `break_reason` can give after lane step `step`.
pub open spec fn reason_fits(single_step: bool, bps: Seq<Breakpoint>, reason: Seq<char>, step: u64) -> bool {
    if single_step {
        reason == "single_step"@
    } else {
        ||| reason == "after_step"@ && bps.contains(Breakpoint::AfterStep { step })
        ||| reason == "memory_access"@ && bps.contains(Breakpoint::OnMemoryAccess)
    }
}

/// A breakpoint reason names the breakpoint that gave it.
proof fn lemma_break_reason_fits(single_step: bool, bps: Seq<Breakpoint>, step: u64, op: Op)
    requires
        break_reason(single_step, bps, step, op) is Some,
    ensures
        reason_fits(single_step, bps, break_reason(single_step, bps, step, op)->0, step),
    decreases bps.len(),
{
    if !single_step {
        let rest = bps.drop_last();
        if break_reason(false, rest, step, op) is Some {
            lemma_break_reason_fits(false, rest, step, op);
            assert forall|x: Breakpoint| rest.contains(x) implies bps.contains(x) by {
                let j = choose|j: int| 0 <= j < rest.len() && rest[j] == x;
                assert(bps[j] == rest[j]);
            }
        } else {
            assert(bps[bps.len() - 1] == bps.last());
        }
    }
}

/// Receives each lane step and each barrier of a run.
pub trait ExecObserver {
    /// The observer lets every step continue and every barrier pass.
    spec fn passive(&self) -> bool;

    /// The errors the observer may stop a run with.
    spec fn faults(&self) -> Set<FunctionalError>;

    /// What the observer keeps for a whole run: whether it stops after
    /// every step, and its breakpoints.
    spec fn settings(&self) -> (bool, Seq<Breakpoint>);

    /// The observer asked the run to stop after its last step.
    spec fn stopped(&self) -> bool;

    /// Called after a lane executed `op`; `regs` are its registers after the op.
    fn on_lane_step(
        &mut self,
        step: u64,
        barrier_gen: u64,
        actor: WorkItemId,
        op: &Op,
        regs: &Registers,
    ) -> (r: Result<DebugAction, FunctionalError>)
        ensures
            old(self).passive() ==> r == Ok::<DebugAction, FunctionalError>(DebugAction::Continue)
                && final(self).passive(),
            final(self).faults() == old(self).faults(),
            final(self).settings() == old(self).settings(),
            r matches Err(e) ==> old(self).faults().contains(e) && !(e is DebugBreak) && !(e is Sanitize),
            r == Ok::<DebugAction, FunctionalError>(DebugAction::Break) ==> final(self).stopped(),
    ;

    /// Called when a workgroup passes a barrier.
    fn on_barrier(&mut self, barrier_gen: u64) -> (r: Result<(), FunctionalError>)
        ensures
            old(self).passive() ==> r is Ok && final(self).passive(),
            final(self).faults() == old(self).faults(),
            final(self).settings() == old(self).settings(),
            r matches Err(e) ==> old(self).faults().contains(e) && !(e is DebugBreak) && !(e is Sanitize),
    ;
}

/// An observer that never stops a run.
#[derive(Debug)]
pub struct NoopObserver;

impl ExecObserver for NoopObserver {
    open spec fn passive(&self) -> bool {
        true
    }

    open spec fn faults(&self) -> Set<FunctionalError> {
        Set::empty()
    }

    open spec fn settings(&self) -> (bool, Seq<Breakpoint>) {
        (false, Seq::empty())
    }

    open spec fn stopped(&self) -> bool {
        false
    }

    fn on_lane_step(
        &mut self,
        step: u64,
        barrier_gen: u64,
        actor: WorkItemId,
        op: &Op,
        regs: &Registers,
    ) -> (r: Result<DebugAction, FunctionalError>) {
        Ok(DebugAction::Continue)
    }

    fn on_barrier(&mut self, barrier_gen: u64) -> (r: Result<(), FunctionalError>) {
        Ok(())
    }
}

/// An observer that traces the run and stops it at breakpoints.
pub struct DebugSession {
    source_provenance: String,
    breakpoints: Vec<Breakpoint>,
    pub trace: TraceLog,
    stop: Option<DebugStop>,
    single_step: bool,
}

impl DebugSession {
    pub closed spec fn stop_of(&self) -> Option<DebugStop> {
        self.stop
    }

    pub closed spec fn trace_of(&self) -> TraceLog {
        self.trace
    }

    pub closed spec fn stepping(&self) -> bool {
        self.single_step
    }

    pub closed spec fn breakpoint_list(&self) -> Seq<Breakpoint> {
        self.breakpoints@
    }

    /// A session for `program` with the given breakpoints and trace budget.
    pub fn new(program: &Program, breakpoints: Vec<Breakpoint>, trace_budget: usize) -> (r: Self)
        ensures
            r.stop_of() is None,
            !r.stepping(),
            r.breakpoint_list() == breakpoints@,
            r.trace_of().log().len() == 0,
            r.trace_of().capacity() == if trace_budget == 0 { 1 } else { trace_budget as nat },
    {
        DebugSession {
            source_provenance: program.source_provenance.clone(),
            breakpoints,
            trace: TraceLog::new(trace_budget),
            stop: None,
            single_step: false,
        }
    }

    /// A session whose trace holds exactly `capacity` events.
    fn for_run(program: &Program, breakpoints: Vec<Breakpoint>, capacity: usize, stated: usize) -> (r: Self)
        ensures
            r.trace_of().log().len() == 0,
            r.trace_of().capacity() == capacity,
            r.trace_of().stated_budget() == stated,
            r.stop_of() is None,
            !r.stepping(),
            r.breakpoint_list() == breakpoints@,
    {
        DebugSession {
            source_provenance: program.source_provenance.clone(),
            breakpoints,
            trace: TraceLog::with_capacity(capacity, stated),
            stop: None,
            single_step: false,
        }
    }

    /// The same session, stopping after every lane step.
    pub fn with_single_step(self) -> (r: Self)
        ensures
            r.stepping(),
            r.stop_of() == self.stop_of(),
            r.breakpoint_list() == self.breakpoint_list(),
            r.trace_of() == self.trace_of(),
    {
        let mut s = self;
        s.single_step = true;
        s
    }

    /// Takes the recorded stop, leaving none.
    pub fn take_stop(&mut self) -> (r: Option<DebugStop>)
        ensures
            r == old(self).stop_of(),
            final(self).stop_of() is None,
            final(self).trace_of() == old(self).trace_of(),
    {
        self.stop.take()
    }

    /// The breakpoint reason that applies after `step` ran `op`, if any.
    fn should_break(&self, step: u64, op: &Op) -> (r: Option<&'static str>)
        ensures
            match r {
                Some(s) => break_reason(self.single_step, self.breakpoints@, step, *op) == Some(s@),
                None => break_reason(self.single_step, self.breakpoints@, step, *op) is None,
            },
    {
        if self.single_step {
            return Some("single_step");
        }
        let mut i: usize = 0;
        while i < self.breakpoints.len()
            invariant
                !self.single_step,
                i <= self.breakpoints@.len(),
                break_reason(false, self.breakpoints@.subrange(0, i as int), step, *op) is None,
            decreases self.breakpoints@.len() - i,
        {
            let ghost sub = self.breakpoints@.subrange(0, i + 1);
            assert(sub.drop_last() =~= self.breakpoints@.subrange(0, i as int));
            match self.breakpoints[i] {
                Breakpoint::AfterStep { step: s } => {
                    if s == step {
                        proof { lemma_break_reason_prefix(self.breakpoints@, i as int + 1, step, *op); }
                        return Some("after_step");
                    }
                },
                Breakpoint::OnMemoryAccess => {
                    if is_memory_op(op) {
                        proof { lemma_break_reason_prefix(self.breakpoints@, i as int + 1, step, *op); }
                        return Some("memory_access");
                    }
                },
            }
            i = i + 1;
        }
        assert(self.breakpoints@.subrange(0, self.breakpoints@.len() as int) =~= self.breakpoints@);
        None
    }
}

/// A breakpoint reason found in a prefix stays the reason of the whole list.
proof fn lemma_break_reason_prefix(bps: Seq<Breakpoint>, n: int, step: u64, op: Op)
    requires
        0 <= n <= bps.len(),
        break_reason(false, bps.subrange(0, n), step, op) is Some,
    ensures
        break_reason(false, bps, step, op) == break_reason(false, bps.subrange(0, n), step, op),
    decreases bps.len() - n,
{
    if n < bps.len() {
        let next = bps.subrange(0, n + 1);
        assert(next.drop_last() =~= bps.subrange(0, n));
        lemma_break_reason_prefix(bps, n + 1, step, op);
    } else {
        assert(bps.subrange(0, n) =~= bps);
    }
}

/// A stop that a breakpoint of `bps` (or single stepping) explains, with no
/// source mapping, whose `Break` event ends `log`.
pub open spec fn stop_recorded(st: DebugStop, single_step: bool, bps: Seq<Breakpoint>, log: Seq<TraceEvent>) -> bool {
    &&& reason_fits(single_step, bps, st.reason@, st.snapshot.step)
    &&& st.snapshot.source_mapping is None
    &&& log.len() > 0
    &&& log.last() matches TraceEvent::Break { step, reason } && step == st.snapshot.step && reason@ == st.reason@
}

/// Trace events a debug session records for one lane step: the step, a
/// memory access for memory ops, and a break when a breakpoint applies.
pub open spec fn step_event_count(op: Op, reason: Option<Seq<char>>) -> nat {
    1 + (if is_memory_op_spec(op) { 1nat } else { 0nat }) + (if reason is Some { 1nat } else { 0nat })
}

impl ExecObserver for DebugSession {
    open spec fn passive(&self) -> bool {
        false
    }

    open spec fn faults(&self) -> Set<FunctionalError> {
        Set::new(|e: FunctionalError| is_budget_error(e, self.trace_of().stated_budget()))
    }

    open spec fn settings(&self) -> (bool, Seq<Breakpoint>) {
        (self.stepping(), self.breakpoint_list())
    }

    open spec fn stopped(&self) -> bool {
        self.stop_of() matches Some(st) && stop_recorded(st, self.stepping(), self.breakpoint_list(), self.trace_of().log())
    }

    fn on_lane_step(
        &mut self,
        step: u64,
        barrier_gen: u64,
        actor: WorkItemId,
        op: &Op,
        regs: &Registers,
    ) -> (r: Result<DebugAction, FunctionalError>)
        ensures
            final(self).breakpoint_list() == old(self).breakpoint_list(),
            final(self).stepping() == old(self).stepping(),
            final(self).trace_of().capacity() == old(self).trace_of().capacity(),
            ({
                let n = old(self).trace_of().log().len();
                let reason = break_reason(old(self).stepping(), old(self).breakpoint_list(), step, *op);
                let need = step_event_count(*op, reason);
                let log = final(self).trace_of().log();
                &&& n + need <= old(self).trace_of().capacity() ==> {
                    &&& r == Ok::<DebugAction, FunctionalError>(
                        if reason is Some { DebugAction::Break } else { DebugAction::Continue },
                    )
                    &&& log.len() == n + need
                    &&& log.subrange(0, n as int) == old(self).trace_of().log()
                    &&& (log[n as int] matches TraceEvent::Step { step: s, barrier_gen: g, actor: a, op: o } && s == step
                        && g == barrier_gen && a == actor && o@ == op_label_spec(*op))
                    &&& is_memory_op_spec(*op) ==> (log[n + 1int] matches TraceEvent::MemoryAccess {
                        step: s,
                        actor: a,
                        ..
                    } && s == step && a == actor)
                    &&& reason matches Some(rs) ==> {
                        &&& (log.last() matches TraceEvent::Break { step: s, reason: rr } && s == step && rr@ == rs)
                        &&& (final(self).stop_of() matches Some(st) && st.reason@ == rs && st.snapshot.step == step
                            && st.snapshot.barrier_gen == barrier_gen && st.snapshot.actor == actor && st.snapshot.op@
                            == op_label_spec(*op) && st.snapshot.registers@ == regs.entries())
                    }
                    &&& reason is None ==> final(self).stop_of() == old(self).stop_of()
                }
                &&& n + need > old(self).trace_of().capacity() ==> (r matches Err(e) && e is Validation
                    && final(self).trace_of().was_exhausted() && final(self).stop_of() == old(self).stop_of())
            }),
    {
        let label = op_label(op);
        let l2 = label.clone();
        self.trace.push(TraceEvent::Step { step, barrier_gen, actor, op: label })?;
        if is_memory_op(op) {
            let (space, is_write, is_atomic) = match op {
                Op::LoadGlobal { .. } => (AddrSpace::Global, false, false),
                Op::StoreGlobal { .. } => (AddrSpace::Global, true, false),
                Op::LoadGroup { .. } => (AddrSpace::Group, false, false),
                Op::StoreGroup { .. } => (AddrSpace::Group, true, false),
                Op::AtomicAdd { space, .. } => (*space, true, true),
                _ => (AddrSpace::Global, false, false),
            };
            self.trace.push(TraceEvent::MemoryAccess { step, space, addr: 0, is_write, is_atomic, actor })?;
        }
        match self.should_break(step, op) {
            Some(reason) => {
                let snap = StateSnapshot {
                    step,
                    barrier_gen,
                    actor,
                    op: l2,
                    registers: regs.snapshot(),
                    source_provenance: self.source_provenance.clone(),
                    source_mapping: None,
                };
                self.trace.push(TraceEvent::Break { step, reason: owned(reason) })?;
                self.stop = Some(DebugStop { reason: owned(reason), snapshot: snap });
                proof { lemma_break_reason_fits(self.single_step, self.breakpoints@, step, *op); }
                Ok(DebugAction::Break)
            },
            None => Ok(DebugAction::Continue),
        }
    }

    fn on_barrier(&mut self, barrier_gen: u64) -> (r: Result<(), FunctionalError>) {
        self.trace.push(TraceEvent::Barrier { barrier_gen })
    }
}

/// What a debug run reports.
#[derive(Debug, Clone, PartialEq, Eq)]
pub struct DebugRunReport {
    pub fidelity: &'static str,
    pub mode: &'static str,
    pub note: &'static str,
    pub run: Option<RunReport>,
    pub sanitize: SanitizeReport,
    pub stop: Option<DebugStop>,
    pub trace_events: usize,
}

/// The `Debug` name of a finding kind.
pub fn kind_name(k: FindingKind) -> (r: &'static str)
    ensures
        r@ == match k {
            FindingKind::OutOfBounds => "OutOfBounds"@,
            FindingKind::UseAfterFree => "UseAfterFree"@,
            FindingKind::UninitializedRead => "UninitializedRead"@,
            FindingKind::Race => "Race"@,
            FindingKind::MissingBarrier => "MissingBarrier"@,
            FindingKind::CrossWorkgroupRace => "CrossWorkgroupRace"@,
            FindingKind::ShadowLimit => "ShadowLimit"@,
        },
{
    match k {
        FindingKind::OutOfBounds => "OutOfBounds",
        FindingKind::UseAfterFree => "UseAfterFree",
        FindingKind::UninitializedRead => "UninitializedRead",
        FindingKind::Race => "Race",
        FindingKind::MissingBarrier => "MissingBarrier",
        FindingKind::CrossWorkgroupRace => "CrossWorkgroupRace",
        FindingKind::ShadowLimit => "ShadowLimit",
    }
}

/// The header event a debug run starts its trace with.
pub open spec fn header_matches(ev: TraceEvent, p: Program, cfg: ExecConfig) -> bool {
    ev matches TraceEvent::Header {
        schema,
        program_name,
        source_provenance,
        grid,
        workgroup,
        wave_size,
        schedule,
        schedule_seed,
        note,
    } && schema@ == DEBUG_TRACE_SCHEMA@ && program_name@ == p.name@ && source_provenance@
        == p.source_provenance@ && grid == cfg.launch.grid && workgroup == cfg.launch.workgroup && wave_size
        == cfg.wave_size && schedule == cfg.schedule && schedule_seed == cfg.schedule_seed && note@
        == "not_gfx1201_isa_emulation"@
}

/// Executes under debugger control: traces every lane step into a log of at
/// most `trace_budget` events, stops at the first breakpoint that applies
/// (or after the first step when `single_step`), and turns a sanitizer
/// finding that stopped the run into a stop. Other errors propagate.
pub fn run_debug(
    program: &Program,
    cfg: ExecConfig,
    arena: &mut GlobalArena,
    kernarg: &[u8],
    breakpoints: Vec<Breakpoint>,
    single_step: bool,
    trace_budget: usize,
) -> (r: Result<(DebugRunReport, TraceLog), FunctionalError>)
    ensures
        final(arena)@.len() == old(arena)@.len(),
        !shadow_too_large(cfg, *program, old(arena)@.len()) && !program_valid(*program) ==> r is Err
            && r->Err_0 is Validation && *final(arena) == *old(arena),
        !shadow_too_large(cfg, *program, old(arena)@.len()) && program_valid(*program) && !config_valid(
            cfg,
            *program,
        ) ==> r is Err && r->Err_0 is Validation && *final(arena) == *old(arena),
        r matches Err(e) ==> !(e is DebugBreak),
        r matches Ok((rep, trace)) ==> {
            &&& trace.log().len() >= 1
            &&& header_matches(trace.log()[0], *program, cfg)
            &&& rep.trace_events == trace.log().len()
            &&& rep.note@ == "not_gfx1201_isa_emulation"@
            &&& rep.mode@ == "softgpu_functional_debug_v1"@
            &&& match rep.run {
                Some(run) => {
                    &&& run_outcome(run, *program, cfg)
                    &&& run_model(*program, cfg, old(arena)@, kernarg@) == Some(
                        (final(arena)@, run.steps as nat, run.atomics_executed as nat),
                    )
                    &&& rep.fidelity@ == "functional"@
                    &&& trace.log().last() == TraceEvent::Done {
                        steps: run.steps,
                        workitems: run.workitems_executed,
                    }
                },
                None => {
                    &&& rep.sanitize.findings@.len() <= 1
                    &&& rep.sanitize.findings@.len() == 1 ==> {
                        &&& rep.fidelity@ == "sanitized"@
                        &&& rep.stop matches Some(s) && s.reason@ == "sanitize_finding"@ && s.snapshot.step
                            == rep.sanitize.findings@[0].step && s.snapshot.source_mapping is None
                    }
                },
            }
        },
        !shadow_too_large(cfg, *program, old(arena)@.len()) && program_valid(*program) && config_valid(cfg, *program)
            && run_model(*program, cfg, old(arena)@, kernarg@) is Some ==> (r is Ok || (r matches Err(e)
            && is_budget_error(e, if trace_budget == 0 { 1 } else { trace_budget as nat }))),
        r matches Ok((rep, trace)) ==> (rep.run is None && rep.sanitize.findings@.len() == 0 ==> (rep.stop matches Some(
            st,
        ) && stop_recorded(st, single_step, breakpoints@, trace.log()))),
{
    let budget = if trace_budget == 0 { 1 } else { trace_budget };
    let ghost bps = breakpoints@;
    let mut session = DebugSession::for_run(program, breakpoints, budget - 1, budget);
    if single_step {
        session = session.with_single_step();
    }
    let ghost s0 = session;
    assert(s0.settings() == (single_step, bps));
    let header = TraceEvent::Header {
        schema: owned(DEBUG_TRACE_SCHEMA),
        program_name: program.name.clone(),
        source_provenance: program.source_provenance.clone(),
        grid: cfg.launch.grid,
        workgroup: cfg.launch.workgroup,
        wave_size: cfg.wave_size,
        schedule: cfg.schedule,
        schedule_seed: cfg.schedule_seed,
        note: owned("not_gfx1201_isa_emulation"),
    };
    let outcome = run_with_observer(program, cfg, arena, kernarg, &mut session);
    let ghost s1 = session;
    let stop = session.take_stop();
    let ghost broke = outcome matches Err(FunctionalError::DebugBreak);
    assert(broke ==> s1.stopped());
    let outcome = match outcome {
        Ok(x) => Ok(x),
        Err(e) => match e {
            FunctionalError::DebugBreak => Err(FunctionalError::DebugBreak),
            FunctionalError::Sanitize(f) => Err(FunctionalError::Sanitize(f)),
            other => {
                return Err(other);
            },
        },
    };
    let ghost h = header;
    let mut trace = TraceLog::after_header(header, session.trace);
    assert(trace.log()[0] == h);
    assert(header_matches(h, *program, cfg));
    match outcome {
        Ok((run, sanitize)) => {
            let mut i: usize = 0;
            while i < sanitize.findings.len()
                invariant
                    i <= sanitize.findings@.len(),
                    trace.log().len() >= 1,
                    trace.log()[0] == h,
                    trace.stated_budget() == s1.trace_of().stated_budget(),
                decreases sanitize.findings@.len() - i,
            {
                let _ = trace.push(TraceEvent::SanitizeFinding { finding: copy_finding(&sanitize.findings[i]) });
                i = i + 1;
            }
            match trace.push(TraceEvent::Done { steps: run.steps, workitems: run.workitems_executed }) {
                Ok(()) => {},
                Err(e) => {
                    proof {
                        assert(s1.faults().contains(e));
                        assert(s0.faults().contains(e));
                    }
                    return Err(e);
                },
            }
            let n = trace.events().len();
            Ok(
                (
                    DebugRunReport {
                        fidelity: "functional",
                        mode: "softgpu_functional_debug_v1",
                        note: "not_gfx1201_isa_emulation",
                        run: Some(run),
                        sanitize,
                        stop,
                        trace_events: n,
                    },
                    trace,
                ),
            )
        },
        Err(FunctionalError::DebugBreak) => {
            proof {
                assert(broke);
                assert(s1.settings() == s0.settings());
                assert(stop_recorded(stop->0, single_step, bps, s1.trace_of().log()));
                assert(trace.log().last() == s1.trace_of().log().last());
            }
            let n = trace.events().len();
            Ok(
                (
                    DebugRunReport {
                        fidelity: "functional",
                        mode: "softgpu_functional_debug_v1",
                        note: "not_gfx1201_isa_emulation",
                        run: None,
                        sanitize: SanitizeReport::clean(),
                        stop,
                        trace_events: n,
                    },
                    trace,
                ),
            )
        },
        Err(FunctionalError::Sanitize(finding)) => {
            let _ = trace.push(TraceEvent::SanitizeFinding { finding: copy_finding(&finding) });
            let snap = StateSnapshot {
                step: finding.step,
                barrier_gen: finding.barrier_gen,
                actor: finding.actor,
                op: owned(kind_name(finding.kind)),
                registers: Vec::new(),
                source_provenance: program.source_provenance.clone(),
                source_mapping: None,
            };
            let _ = trace.push(TraceEvent::Break { step: finding.step, reason: owned("sanitize_finding") });
            let n = trace.events().len();
            let mut findings: Vec<Finding> = Vec::new();
            findings.push(finding);
            Ok(
                (
                    DebugRunReport {
                        fidelity: "sanitized",
                        mode: "softgpu_functional_debug_v1",
                        note: "not_gfx1201_isa_emulation",
                        run: None,
                        sanitize: SanitizeReport {
                            fidelity: "sanitized",
                            mode: "softgpu_functional_sanitizer_v1",
                            note: "not_gfx1201_isa_emulation",
                            findings,
                        },
                        stop: Some(DebugStop { reason: owned("sanitize_finding"), snapshot: snap }),
                        trace_events: n,
                    },
                    trace,
                ),
            )
        },
        Err(e) => Err(e),
    }
}


/// Replays a sanitizer finding: runs fail-fast with a breakpoint at the
/// finding's step (at least 1) and returns the debug report, the trace and
/// the replay bundle of the finding.
pub fn inspect_sanitizer_finding(
    program: &Program,
    cfg: ExecConfig,
    arena: &mut GlobalArena,
    kernarg: &[u8],
    finding: &Finding,
) -> (r: Result<(DebugRunReport, TraceLog, ReplayBundle), FunctionalError>)
    ensures
        final(arena)@.len() == old(arena)@.len(),
        r matches Ok((rep, trace, bundle)) ==> {
            &&& bundle.finding == *finding
            &&& bundle.program_name@ == program.name@
            &&& bundle.exec_cfg.grid == cfg.launch.grid
            &&& bundle.exec_cfg.workgroup == cfg.launch.workgroup
            &&& bundle.exec_cfg.wave_size == cfg.wave_size
            &&& bundle.exec_cfg.schedule == cfg.schedule
            &&& bundle.exec_cfg.step_budget == cfg.step_budget
            &&& trace.log().len() >= 1
            &&& rep.trace_events == trace.log().len()
        },
{
    let mut cfg = cfg;
    cfg.sanitize = SanitizeMode::FailFast;
    let at = if finding.step >= 1 { finding.step } else { 1 };
    let mut bps: Vec<Breakpoint> = Vec::new();
    bps.push(Breakpoint::AfterStep { step: at });
    let (report, trace) = run_debug(program, cfg, arena, kernarg, bps, false, DEFAULT_TRACE_EVENT_BUDGET)?;
    let bundle = ReplayBundle::from_finding(program, &cfg, copy_finding(finding));
    Ok((report, trace, bundle))
}

/// One configuration tried by exploration.
#[derive(Debug, Clone, Copy, PartialEq, Eq)]
pub struct ExploreTrial {
    pub wave_size: u32,
    pub schedule_seed: u64,
    pub workgroup_x: u32,
    pub found: bool,
    pub kind: Option<FindingKind>,
    pub step: Option<u64>,
}

/// What an exploration reports.
#[derive(Debug, Clone, PartialEq, Eq)]
pub struct ExploreReport {
    pub fidelity: &'static str,
    pub mode: &'static str,
    pub note: &'static str,
    pub seed: u64,
    pub trials: Vec<ExploreTrial>,
    pub minimized: Option<ExploreTrial>,
}

/// Findings that are ordering defects.
pub open spec fn is_race_kind(k: FindingKind) -> bool {
    k is Race || k is MissingBarrier || k is CrossWorkgroupRace
}

/// The wave sizes exploration tries, in order.
pub open spec fn wave_candidates(base: ExecConfig, seed: u64) -> Seq<u32> {
    let wg_x = if base.launch.workgroup[0] >= 1 { base.launch.workgroup[0] } else { 1 };
    let from_seed = (seed % 31 + 1) as u32;
    seq![base.wave_size, if from_seed <= wg_x { from_seed } else { wg_x }, 1, 2, 4, 8, wg_x]
}

/// A trial is internally consistent: it found something exactly when it
/// has a kind, and then the kind is a race and the step (counted from 1) is
/// known.
pub open spec fn trial_consistent(t: ExploreTrial) -> bool {
    &&& t.found <==> t.kind is Some
    &&& t.found ==> is_race_kind(t.kind->0) && t.step is Some && t.step->0 >= 1
}

/// A probe of `c` on a fresh zeroed arena of `n` bytes cannot fail: the
/// shadows do not fit (a finding, not a failure), or the program and
/// configuration are valid and the run's model succeeds.
pub open spec fn probe_owed(p: Program, c: ExecConfig, kernarg: Seq<u8>, n: usize) -> bool {
    shadow_too_large(c, p, n as nat) || (program_valid(p) && config_valid(c, p) && run_model(
        p,
        c,
        zeros(n as nat),
        kernarg,
    ) is Some)
}

/// Trials exploration runs for `max_trials`.
pub open spec fn trial_limit(max_trials: u32) -> int {
    if max_trials < 14 {
        max_trials as int
    } else {
        14
    }
}

/// The configuration of trial `a`: the candidate wave size, a seed mixed
/// from the exploration seed, the trial's parity and the wave size, and a
/// fail-fast sanitizer.
pub open spec fn trial_cfg(base: ExecConfig, seed: u64, a: int) -> ExecConfig {
    let cand = wave_candidates(base, seed)[a / 2];
    ExecConfig {
        wave_size: if cand >= 1 { cand } else { 1 },
        schedule_seed: seed ^ (((a % 2) as u64) << 1u64) ^ (cand as u64),
        sanitize: SanitizeMode::FailFast,
        ..base
    }
}

/// Runs `cfg` fail-fast on a fresh zeroed arena of `arena_len` bytes; a race
/// finding is returned, any other sanitizer finding or a clean run is none,
/// and other errors propagate.
fn race_probe(program: &Program, cfg: ExecConfig, kernarg: &[u8], arena_len: usize) -> (r: Result<
    Option<(FindingKind, u64)>,
    FunctionalError,
>)
    ensures
        r matches Ok(Some((k, _))) ==> is_race_kind(k),
        r matches Ok(Some((_, st))) ==> st >= 1,
        shadow_too_large(cfg, *program, arena_len as nat) ==> r == Ok::<Option<(FindingKind, u64)>, FunctionalError>(
            None,
        ),
        !shadow_too_large(cfg, *program, arena_len as nat) && !program_valid(*program) ==> (r matches Err(e)
            && e is Validation),
        !shadow_too_large(cfg, *program, arena_len as nat) && program_valid(*program) && !config_valid(cfg, *program)
            ==> (r matches Err(e) && e is Validation),
        probe_owed(*program, cfg, kernarg@, arena_len) ==> r is Ok,
{
    let mut arena = GlobalArena::new(arena_len);
    match run_with_config_sanitized(program, cfg, &mut arena, kernarg) {
        Ok(_) => Ok(None),
        Err(FunctionalError::Sanitize(f)) => {
            if matches!(f.kind, FindingKind::Race | FindingKind::MissingBarrier | FindingKind::CrossWorkgroupRace) {
                Ok(Some((f.kind, f.step)))
            } else {
                Ok(None)
            }
        },
        Err(e) => Err(e),
    }
}

/// Runs `cfg` on a fresh zeroed arena and returns the step of any sanitizer
/// finding that stopped it.
fn finding_step_probe(program: &Program, cfg: ExecConfig, kernarg: &[u8], arena_len: usize) -> (r: Option<u64>)
    ensures
        shadow_too_large(cfg, *program, arena_len as nat) ==> r is Some,
        !shadow_too_large(cfg, *program, arena_len as nat) ==> (r matches Some(s) ==> s >= 1),
        !shadow_too_large(cfg, *program, arena_len as nat) && !program_valid(*program) ==> r is None,
        !shadow_too_large(cfg, *program, arena_len as nat) && program_valid(*program) && !config_valid(cfg, *program)
            ==> r is None,
        program_valid(*program) && config_valid(cfg, *program) && cfg.sanitize is Off && run_model(
            *program,
            cfg,
            zeros(arena_len as nat),
            kernarg@,
        ) is Some ==> r is None,
{
    let mut arena = GlobalArena::new(arena_len);
    match run_with_config_sanitized(program, cfg, &mut arena, kernarg) {
        Err(FunctionalError::Sanitize(f)) => Some(f.step),
        _ => None,
    }
}

/// Bounded seeded search for a race: up to `max_trials` runs over the wave
/// size candidates (two seeds each). The first hit is then shrunk by halving
/// the workgroup while a race remains, and its step is lowered to the
/// earliest finding step a binary search over step budgets reaches.
pub fn explore_and_minimize_race(
    program: &Program,
    base: ExecConfig,
    kernarg: &[u8],
    arena_len: usize,
    seed: u64,
    max_trials: u32,
) -> (r: Result<ExploreReport, FunctionalError>)
    ensures
        r matches Ok(rep) ==> {
            &&& rep.seed == seed
            &&& rep.fidelity@ == "functional"@
            &&& rep.mode@ == "softgpu_schedule_explore_v1"@
            &&& rep.note@ == "not_gfx1201_isa_emulation"@
            &&& rep.trials@.len() == if max_trials < 14 { max_trials as int } else { 14 }
            &&& forall|a: int|
                0 <= a < rep.trials@.len() ==> {
                    let cand = wave_candidates(base, seed)[a / 2];
                    &&& trial_consistent(#[trigger] rep.trials@[a])
                    &&& rep.trials@[a].wave_size == if cand >= 1 { cand } else { 1 }
                    &&& rep.trials@[a].schedule_seed == seed ^ (((a % 2) as u64) << 1u64) ^ (cand as u64)
                    &&& rep.trials@[a].workgroup_x == base.launch.workgroup[0]
                }
            &&& (rep.minimized is Some <==> exists|a: int| 0 <= a < rep.trials@.len() && (#[trigger] rep.trials@[a]).found)
            &&& rep.minimized matches Some(m) ==> trial_consistent(m) && m.found && m.workgroup_x
                <= base.launch.workgroup[0] && m.step->0 >= 1
        },
        (forall|a: int| 0 <= a < trial_limit(max_trials) ==> #[trigger] probe_owed(
            *program,
            trial_cfg(base, seed, a),
            kernarg@,
            arena_len,
        )) ==> r is Ok,
        trial_limit(max_trials) > 0 && !shadow_too_large(trial_cfg(base, seed, 0), *program, arena_len as nat)
            && !program_valid(*program) ==> (r matches Err(e) && e is Validation),
{
    let ghost owed = forall|a: int| 0 <= a < trial_limit(max_trials) ==> #[trigger] probe_owed(
        *program,
        trial_cfg(base, seed, a),
        kernarg@,
        arena_len,
    );
    let mut trials: Vec<ExploreTrial> = Vec::new();
    let mut hit: Option<ExploreTrial> = None;
    let wg_x = if base.launch.workgroup[0] >= 1 { base.launch.workgroup[0] } else { 1 };
    let from_seed = (seed % 31 + 1) as u32;
    let cands: [u32; 7] = [base.wave_size, if from_seed <= wg_x { from_seed } else { wg_x }, 1, 2, 4, 8, wg_x];
    assert(cands@ =~= wave_candidates(base, seed));
    let limit: usize = if max_trials < 14 { max_trials as usize } else { 14 };
    let mut attempt: usize = 0;
    while attempt < limit
        invariant
            limit <= 14,
            limit == if max_trials < 14 { max_trials as int } else { 14 },
            attempt <= limit,
            trials@.len() == attempt,
            cands@ == wave_candidates(base, seed),
            forall|a: int|
                0 <= a < trials@.len() ==> {
                    let cand = wave_candidates(base, seed)[a / 2];
                    &&& trial_consistent(#[trigger] trials@[a])
                    &&& trials@[a].wave_size == if cand >= 1 { cand } else { 1 }
                    &&& trials@[a].schedule_seed == seed ^ (((a % 2) as u64) << 1u64) ^ (cand as u64)
                    &&& trials@[a].workgroup_x == base.launch.workgroup[0]
                },
            hit is Some <==> exists|a: int| 0 <= a < trials@.len() && (#[trigger] trials@[a]).found,
            hit matches Some(h) ==> trial_consistent(h) && h.found && h.workgroup_x == base.launch.workgroup[0]
                && h.step->0 >= 1 && !shadow_too_large(trial_cfg(base, seed, 0), *program, arena_len as nat),
            owed == forall|a: int| 0 <= a < trial_limit(max_trials) ==> #[trigger] probe_owed(
                *program,
                trial_cfg(base, seed, a),
                kernarg@,
                arena_len,
            ),
            attempt > 0 ==> !(!shadow_too_large(trial_cfg(base, seed, 0), *program, arena_len as nat) && !program_valid(
                *program,
            )),
        decreases limit - attempt,
    {
        let ws = cands[attempt / 2];
        let bit = (attempt % 2) as u64;
        let mut cfg = base;
        cfg.wave_size = if ws >= 1 { ws } else { 1 };
        cfg.schedule_seed = seed ^ (bit << 1u64) ^ (ws as u64);
        cfg.sanitize = SanitizeMode::FailFast;
        assert(cfg == trial_cfg(base, seed, attempt as int));
        proof {
            if owed {
                assert(probe_owed(*program, trial_cfg(base, seed, attempt as int), kernarg@, arena_len));
            }
        }
        let probe = race_probe(program, cfg, kernarg, arena_len)?;
        let t = match probe {
            Some((k, st)) => ExploreTrial {
                wave_size: cfg.wave_size,
                schedule_seed: cfg.schedule_seed,
                workgroup_x: cfg.launch.workgroup[0],
                found: true,
                kind: Some(k),
                step: Some(st),
            },
            None => ExploreTrial {
                wave_size: cfg.wave_size,
                schedule_seed: cfg.schedule_seed,
                workgroup_x: cfg.launch.workgroup[0],
                found: false,
                kind: None,
                step: None,
            },
        };
        if t.found && hit.is_none() {
            hit = Some(t);
        }
        let ghost before = trials@;
        trials.push(t);
        proof {
            if hit is Some {
                if exists|a: int| 0 <= a < before.len() && (#[trigger] before[a]).found {
                    let a = choose|a: int| 0 <= a < before.len() && (#[trigger] before[a]).found;
                    assert(trials@[a].found);
                } else {
                    assert(trials@[attempt as int].found);
                }
            }
            if exists|a: int| 0 <= a < trials@.len() && (#[trigger] trials@[a]).found {
                let a = choose|a: int| 0 <= a < trials@.len() && (#[trigger] trials@[a]).found;
                if a < attempt {
                    assert(before[a].found);
                }
            }
        }
        attempt = attempt + 1;
    }
    let minimized = match hit {
        Some(h) => {
            let mut best = h;
            let mut wg = h.workgroup_x;
            while wg > 1
                invariant
                    trial_consistent(best),
                    best.found,
                    best.workgroup_x <= base.launch.workgroup[0],
                    wg <= base.launch.workgroup[0],
                    best.step->0 >= 1,
                    !shadow_too_large(trial_cfg(base, seed, 0), *program, arena_len as nat),
                decreases wg,
            {
                let next = wg / 2;
                let mut cfg = base;
                let ws = if best.wave_size <= next { best.wave_size } else { next };
                cfg.wave_size = if ws >= 1 { ws } else { 1 };
                cfg.schedule_seed = best.schedule_seed;
                cfg.sanitize = SanitizeMode::FailFast;
                cfg.launch = LaunchConfig { grid: [next, 1, 1], workgroup: [next, 1, 1] };
                match race_probe(program, cfg, kernarg, arena_len) {
                    Ok(Some((k, st))) => {
                        best = ExploreTrial {
                            wave_size: cfg.wave_size,
                            schedule_seed: cfg.schedule_seed,
                            workgroup_x: next,
                            found: true,
                            kind: Some(k),
                            step: Some(st),
                        };
                        wg = next;
                    },
                    _ => {
                        break ;
                    },
                }
            }
            if let Some(step) = best.step {
                let mut lo: u64 = 1;
                let mut hi: u64 = step;
                let mut earliest: u64 = step;
                while lo < hi
                    invariant
                        lo <= hi || hi < 1,
                        earliest >= 1,
                        !shadow_too_large(trial_cfg(base, seed, 0), *program, arena_len as nat),
                    decreases hi - lo,
                {
                    let mid = lo + (hi - lo) / 2;
                    let mut cfg = base;
                    cfg.wave_size = best.wave_size;
                    cfg.schedule_seed = best.schedule_seed;
                    cfg.sanitize = SanitizeMode::FailFast;
                    cfg.launch = LaunchConfig { grid: [best.workgroup_x, 1, 1], workgroup: [best.workgroup_x, 1, 1] };
                    cfg.step_budget = mid;
                    match finding_step_probe(program, cfg, kernarg, arena_len) {
                        Some(fs) => {
                            if fs < earliest {
                                earliest = fs;
                            }
                            hi = mid;
                        },
                        None => {
                            lo = mid + 1;
                        },
                    }
                }
                best.step = Some(earliest);
            }
            Some(best)
        },
        None => None,
    };
    Ok(
        ExploreReport {
            fidelity: "functional",
            mode: "softgpu_schedule_explore_v1",
            note: "not_gfx1201_isa_emulation",
            seed,
            trials,
            minimized,
        },
    )
}

/// A trace input of `len` bytes is not too large to read.
pub fn check_trace_input_len(len: usize) -> (r: Result<(), FunctionalError>)
    ensures
        r is Ok <==> len <= MAX_TRACE_BYTES,
        r is Err ==> r->Err_0 is Validation,
{
    if len > MAX_TRACE_BYTES {
        let d = cat_string(owned("trace input of "), dec_u64(len as u64));
        let d = cat_string(crate::text::cat(d, " bytes exceeds SoftGPU max "), dec_u64(MAX_TRACE_BYTES as u64));
        return Err(FunctionalError::Validation { detail: d });
    }
    Ok(())
}

/// Trimmed trace line `line_no` (from 1) of `len` bytes is not too long.
pub fn check_trace_line_len(line_no: usize, len: usize) -> (r: Result<(), FunctionalError>)
    ensures
        r is Ok <==> len <= MAX_TRACE_LINE_BYTES,
        r is Err ==> r->Err_0 is Validation,
{
    if len > MAX_TRACE_LINE_BYTES {
        let d = cat_string(owned("trace line "), dec_u64(line_no as u64));
        let d = cat_string(crate::text::cat(d, " length "), dec_u64(len as u64));
        let d = cat_string(crate::text::cat(d, " exceeds SoftGPU max "), dec_u64(MAX_TRACE_LINE_BYTES as u64));
        return Err(FunctionalError::Validation { detail: d });
    }
    Ok(())
}

/// Another event fits after `parsed` events of a trace being read.
pub fn check_trace_room(parsed: usize) -> (r: Result<(), FunctionalError>)
    ensures
        r is Ok <==> parsed < DEFAULT_TRACE_EVENT_BUDGET,
        r is Err ==> r->Err_0 is Validation,
{
    if parsed >= DEFAULT_TRACE_EVENT_BUDGET {
        let d = cat_string(owned("trace has more than "), dec_u64(DEFAULT_TRACE_EVENT_BUDGET as u64));
        return Err(FunctionalError::Validation { detail: crate::text::cat(d, " events (SoftGPU limit)") });
    }
    Ok(())
}

/// A trace read back is empty or starts with a header of this schema.
pub open spec fn trace_header_ok(events: Seq<TraceEvent>) -> bool {
    events.len() == 0 || (events[0] matches TraceEvent::Header { schema, .. } && schema@ == DEBUG_TRACE_SCHEMA@)
}

/// Checks that a trace read back begins with a header of this schema.
pub fn validate_trace_header(events: &Vec<TraceEvent>) -> (r: Result<(), FunctionalError>)
    ensures
        r is Ok <==> trace_header_ok(events@),
        r is Err ==> r->Err_0 is Validation,
{
    if events.len() == 0 {
        return Ok(());
    }
    match &events[0] {
        TraceEvent::Header { schema, .. } => {
            if crate::text::str_eq(schema.as_str(), DEBUG_TRACE_SCHEMA) {
                Ok(())
            } else {
                let d = cat_string(owned("trace schema '"), schema.clone());
                Err(FunctionalError::Validation { detail: crate::text::cat(d, "' is not softgpu-debug-trace-v1") })
            }
        },
        _ => Err(FunctionalError::validation("debug trace must begin with a header event")),
    }
}

} // verus!
