//! Structured, bounded runtime traces.
use super::fidelity::FidelityLevel;
use crate::text::owned;
use vstd::prelude::*;

verus! {

/// Runtime observation events.
#[derive(Debug, Clone, PartialEq, Eq)]
pub enum TraceEvent {
    RuntimeInit { seq: u64, refcount: u32, profile_id: String, profile_revision: String, fidelity: String },
    RuntimeShutdown { seq: u64, refcount: u32 },
    AgentIterateBegin { seq: u64, agent_count: usize },
    AgentIterateVisit { seq: u64, agent_handle: u64, kind: String },
    AgentGetInfo { seq: u64, agent_handle: u64, attribute: String, outcome: String },
    MemoryAllocate { seq: u64, space_handle: u64, size: usize, ptr: u64, outcome: String },
    MemoryFree { seq: u64, ptr: u64, outcome: String },
    SignalCreate { seq: u64, signal_handle: u64, initial: i64 },
    SignalDestroy { seq: u64, signal_handle: u64 },
    QueueCreate { seq: u64, queue_id: u64, size: u32, agent_handle: u64 },
    QueueDestroy { seq: u64, queue_id: u64 },
    QueueDoorbell { seq: u64, queue_id: u64, value: i64 },
    QueueIndexStore { seq: u64, queue_id: u64, which: String, value: u64 },
    PacketObserved { seq: u64, queue_id: u64, packet_index: u64, packet_type: u16 },
    PacketValidateFailed { seq: u64, queue_id: u64, detail: String },
    Unsupported { seq: u64, api: String, detail: String },
    DispatchValidated {
        seq: u64,
        queue_id: u64,
        packet_index: u64,
        packet_type: u16,
        dimensions: u16,
        workgroup_size: [u16; 3],
        grid_size: [u32; 3],
        private_segment_size: u32,
        group_segment_size: u32,
        kernel_object: u64,
        kernarg_class: String,
        completion_signal: u64,
    },
    DispatchRejected { seq: u64, queue_id: u64, packet_index: u64, packet_type: u16, detail: String, contract: String },
    DiagnosticComplete {
        seq: u64,
        queue_id: u64,
        packet_index: u64,
        completion_signal: u64,
        contract: String,
        note: String,
    },
}

/// A sink that records events without failing the runtime.
pub trait TraceSink {
    fn record(&mut self, event: TraceEvent);
}

/// The label of a fidelity level in traces.
pub open spec fn fidelity_text(level: FidelityLevel) -> Seq<char> {
    match level {
        FidelityLevel::Abi => "abi"@,
        FidelityLevel::ArchitecturalIsa => "architectural-isa"@,
        FidelityLevel::HardwareConformant => "hardware-conformant"@,
    }
}

/// In-memory ring of at most `capacity` events: when full, the oldest
/// event makes room for the newest.
#[derive(Debug)]
pub struct TraceLog {
    pub seq: u64,
    pub events: Vec<TraceEvent>,
    pub capacity: usize,
}

/// The ring after recording `e` into `events` with room for `cap` events.
pub open spec fn ring_record(events: Seq<TraceEvent>, cap: nat, e: TraceEvent) -> Seq<TraceEvent> {
    if events.len() >= cap && events.len() > 0 {
        events.drop_first().push(e)
    } else {
        events.push(e)
    }
}

impl TraceLog {
    /// Capacity is positive and never exceeded.
    pub open spec fn wf(&self) -> bool {
        self.capacity >= 1 && self.events@.len() <= self.capacity
    }

    /// An empty ring holding at most `max(capacity, 1)` events.
    pub fn new(capacity: usize) -> (r: Self)
        ensures
            r.wf(),
            r.seq == 0,
            r.events@.len() == 0,
            r.capacity == (if capacity == 0 { 1 } else { capacity }),
    {
        TraceLog { seq: 0, events: Vec::new(), capacity: if capacity == 0 { 1 } else { capacity } }
    }

    /// Next sequence number (saturating).
    pub fn next_seq(&mut self) -> (r: u64)
        ensures
            r == final(self).seq,
            final(self).seq == (if old(self).seq == u64::MAX { u64::MAX } else { (old(self).seq + 1) as u64 }),
            final(self).events@ == old(self).events@,
            final(self).capacity == old(self).capacity,
    {
        self.seq = if self.seq == u64::MAX { u64::MAX } else { self.seq + 1 };
        self.seq
    }

    pub fn events(&self) -> (r: &[TraceEvent])
        ensures
            r@ == self.events@,
    {
        self.events.as_slice()
    }

    pub fn fidelity_label(level: FidelityLevel) -> (r: String)
        ensures
            r@ == fidelity_text(level),
    {
        owned(level.as_str())
    }
}

impl TraceSink for TraceLog {
    fn record(&mut self, event: TraceEvent)
        ensures
            old(self).wf() ==> final(self).wf(),
            final(self).events@ == ring_record(old(self).events@, old(self).capacity as nat, event),
            final(self).capacity == old(self).capacity,
            final(self).seq == old(self).seq,
    {
        if self.events.len() >= self.capacity && self.events.len() > 0 {
            self.events.remove(0);
        }
        self.events.push(event);
    }
}

/// `a` and `b` are the same event, strings compared by their characters.
pub open spec fn event_eqv(a: TraceEvent, b: TraceEvent) -> bool {
    match a {
        TraceEvent::RuntimeInit { seq: a_seq, refcount: a_refcount, profile_id: a_profile_id, profile_revision: a_profile_revision, fidelity: a_fidelity } => match b {
            TraceEvent::RuntimeInit { seq: b_seq, refcount: b_refcount, profile_id: b_profile_id, profile_revision: b_profile_revision, fidelity: b_fidelity } => a_seq == b_seq && a_refcount == b_refcount && a_profile_id@ == b_profile_id@ && a_profile_revision@ == b_profile_revision@ && a_fidelity@ == b_fidelity@,
            _ => false,
        },
        TraceEvent::RuntimeShutdown { seq: a_seq, refcount: a_refcount } => match b {
            TraceEvent::RuntimeShutdown { seq: b_seq, refcount: b_refcount } => a_seq == b_seq && a_refcount == b_refcount,
            _ => false,
        },
        TraceEvent::AgentIterateBegin { seq: a_seq, agent_count: a_agent_count } => match b {
            TraceEvent::AgentIterateBegin { seq: b_seq, agent_count: b_agent_count } => a_seq == b_seq && a_agent_count == b_agent_count,
            _ => false,
        },
        TraceEvent::AgentIterateVisit { seq: a_seq, agent_handle: a_agent_handle, kind: a_kind } => match b {
            TraceEvent::AgentIterateVisit { seq: b_seq, agent_handle: b_agent_handle, kind: b_kind } => a_seq == b_seq && a_agent_handle == b_agent_handle && a_kind@ == b_kind@,
            _ => false,
        },
        TraceEvent::AgentGetInfo { seq: a_seq, agent_handle: a_agent_handle, attribute: a_attribute, outcome: a_outcome } => match b {
            TraceEvent::AgentGetInfo { seq: b_seq, agent_handle: b_agent_handle, attribute: b_attribute, outcome: b_outcome } => a_seq == b_seq && a_agent_handle == b_agent_handle && a_attribute@ == b_attribute@ && a_outcome@ == b_outcome@,
            _ => false,
        },
        TraceEvent::MemoryAllocate { seq: a_seq, space_handle: a_space_handle, size: a_size, ptr: a_ptr, outcome: a_outcome } => match b {
            TraceEvent::MemoryAllocate { seq: b_seq, space_handle: b_space_handle, size: b_size, ptr: b_ptr, outcome: b_outcome } => a_seq == b_seq && a_space_handle == b_space_handle && a_size == b_size && a_ptr == b_ptr && a_outcome@ == b_outcome@,
            _ => false,
        },
        TraceEvent::MemoryFree { seq: a_seq, ptr: a_ptr, outcome: a_outcome } => match b {
            TraceEvent::MemoryFree { seq: b_seq, ptr: b_ptr, outcome: b_outcome } => a_seq == b_seq && a_ptr == b_ptr && a_outcome@ == b_outcome@,
            _ => false,
        },
        TraceEvent::SignalCreate { seq: a_seq, signal_handle: a_signal_handle, initial: a_initial } => match b {
            TraceEvent::SignalCreate { seq: b_seq, signal_handle: b_signal_handle, initial: b_initial } => a_seq == b_seq && a_signal_handle == b_signal_handle && a_initial == b_initial,
            _ => false,
        },
        TraceEvent::SignalDestroy { seq: a_seq, signal_handle: a_signal_handle } => match b {
            TraceEvent::SignalDestroy { seq: b_seq, signal_handle: b_signal_handle } => a_seq == b_seq && a_signal_handle == b_signal_handle,
            _ => false,
        },
        TraceEvent::QueueCreate { seq: a_seq, queue_id: a_queue_id, size: a_size, agent_handle: a_agent_handle } => match b {
            TraceEvent::QueueCreate { seq: b_seq, queue_id: b_queue_id, size: b_size, agent_handle: b_agent_handle } => a_seq == b_seq && a_queue_id == b_queue_id && a_size == b_size && a_agent_handle == b_agent_handle,
            _ => false,
        },
        TraceEvent::QueueDestroy { seq: a_seq, queue_id: a_queue_id } => match b {
            TraceEvent::QueueDestroy { seq: b_seq, queue_id: b_queue_id } => a_seq == b_seq && a_queue_id == b_queue_id,
            _ => false,
        },
        TraceEvent::QueueDoorbell { seq: a_seq, queue_id: a_queue_id, value: a_value } => match b {
            TraceEvent::QueueDoorbell { seq: b_seq, queue_id: b_queue_id, value: b_value } => a_seq == b_seq && a_queue_id == b_queue_id && a_value == b_value,
            _ => false,
        },
        TraceEvent::QueueIndexStore { seq: a_seq, queue_id: a_queue_id, which: a_which, value: a_value } => match b {
            TraceEvent::QueueIndexStore { seq: b_seq, queue_id: b_queue_id, which: b_which, value: b_value } => a_seq == b_seq && a_queue_id == b_queue_id && a_which@ == b_which@ && a_value == b_value,
            _ => false,
        },
        TraceEvent::PacketObserved { seq: a_seq, queue_id: a_queue_id, packet_index: a_packet_index, packet_type: a_packet_type } => match b {
            TraceEvent::PacketObserved { seq: b_seq, queue_id: b_queue_id, packet_index: b_packet_index, packet_type: b_packet_type } => a_seq == b_seq && a_queue_id == b_queue_id && a_packet_index == b_packet_index && a_packet_type == b_packet_type,
            _ => false,
        },
        TraceEvent::PacketValidateFailed { seq: a_seq, queue_id: a_queue_id, detail: a_detail } => match b {
            TraceEvent::PacketValidateFailed { seq: b_seq, queue_id: b_queue_id, detail: b_detail } => a_seq == b_seq && a_queue_id == b_queue_id && a_detail@ == b_detail@,
            _ => false,
        },
        TraceEvent::Unsupported { seq: a_seq, api: a_api, detail: a_detail } => match b {
            TraceEvent::Unsupported { seq: b_seq, api: b_api, detail: b_detail } => a_seq == b_seq && a_api@ == b_api@ && a_detail@ == b_detail@,
            _ => false,
        },
        TraceEvent::DispatchValidated { seq: a_seq, queue_id: a_queue_id, packet_index: a_packet_index, packet_type: a_packet_type, dimensions: a_dimensions, workgroup_size: a_workgroup_size, grid_size: a_grid_size, private_segment_size: a_private_segment_size, group_segment_size: a_group_segment_size, kernel_object: a_kernel_object, kernarg_class: a_kernarg_class, completion_signal: a_completion_signal } => match b {
            TraceEvent::DispatchValidated { seq: b_seq, queue_id: b_queue_id, packet_index: b_packet_index, packet_type: b_packet_type, dimensions: b_dimensions, workgroup_size: b_workgroup_size, grid_size: b_grid_size, private_segment_size: b_private_segment_size, group_segment_size: b_group_segment_size, kernel_object: b_kernel_object, kernarg_class: b_kernarg_class, completion_signal: b_completion_signal } => a_seq == b_seq && a_queue_id == b_queue_id && a_packet_index == b_packet_index && a_packet_type == b_packet_type && a_dimensions == b_dimensions && a_workgroup_size == b_workgroup_size && a_grid_size == b_grid_size && a_private_segment_size == b_private_segment_size && a_group_segment_size == b_group_segment_size && a_kernel_object == b_kernel_object && a_kernarg_class@ == b_kernarg_class@ && a_completion_signal == b_completion_signal,
            _ => false,
        },
        TraceEvent::DispatchRejected { seq: a_seq, queue_id: a_queue_id, packet_index: a_packet_index, packet_type: a_packet_type, detail: a_detail, contract: a_contract } => match b {
            TraceEvent::DispatchRejected { seq: b_seq, queue_id: b_queue_id, packet_index: b_packet_index, packet_type: b_packet_type, detail: b_detail, contract: b_contract } => a_seq == b_seq && a_queue_id == b_queue_id && a_packet_index == b_packet_index && a_packet_type == b_packet_type && a_detail@ == b_detail@ && a_contract@ == b_contract@,
            _ => false,
        },
        TraceEvent::DiagnosticComplete { seq: a_seq, queue_id: a_queue_id, packet_index: a_packet_index, completion_signal: a_completion_signal, contract: a_contract, note: a_note } => match b {
            TraceEvent::DiagnosticComplete { seq: b_seq, queue_id: b_queue_id, packet_index: b_packet_index, completion_signal: b_completion_signal, contract: b_contract, note: b_note } => a_seq == b_seq && a_queue_id == b_queue_id && a_packet_index == b_packet_index && a_completion_signal == b_completion_signal && a_contract@ == b_contract@ && a_note@ == b_note@,
            _ => false,
        },
    }
}

/// A copy of an event.
pub fn copy_event(e: &TraceEvent) -> (r: TraceEvent)
    ensures
        event_eqv(*e, r),
{
    match e {
        TraceEvent::RuntimeInit { seq, refcount, profile_id, profile_revision, fidelity } => TraceEvent::RuntimeInit {
            seq: *seq,
            refcount: *refcount,
            profile_id: profile_id.clone(),
            profile_revision: profile_revision.clone(),
            fidelity: fidelity.clone(),
        },
        TraceEvent::RuntimeShutdown { seq, refcount } => TraceEvent::RuntimeShutdown {
            seq: *seq,
            refcount: *refcount,
        },
        TraceEvent::AgentIterateBegin { seq, agent_count } => TraceEvent::AgentIterateBegin {
            seq: *seq,
            agent_count: *agent_count,
        },
        TraceEvent::AgentIterateVisit { seq, agent_handle, kind } => TraceEvent::AgentIterateVisit {
            seq: *seq,
            agent_handle: *agent_handle,
            kind: kind.clone(),
        },
        TraceEvent::AgentGetInfo { seq, agent_handle, attribute, outcome } => TraceEvent::AgentGetInfo {
            seq: *seq,
            agent_handle: *agent_handle,
            attribute: attribute.clone(),
            outcome: outcome.clone(),
        },
        TraceEvent::MemoryAllocate { seq, space_handle, size, ptr, outcome } => TraceEvent::MemoryAllocate {
            seq: *seq,
            space_handle: *space_handle,
            size: *size,
            ptr: *ptr,
            outcome: outcome.clone(),
        },
        TraceEvent::MemoryFree { seq, ptr, outcome } => TraceEvent::MemoryFree {
            seq: *seq,
            ptr: *ptr,
            outcome: outcome.clone(),
        },
        TraceEvent::SignalCreate { seq, signal_handle, initial } => TraceEvent::SignalCreate {
            seq: *seq,
            signal_handle: *signal_handle,
            initial: *initial,
        },
        TraceEvent::SignalDestroy { seq, signal_handle } => TraceEvent::SignalDestroy {
            seq: *seq,
            signal_handle: *signal_handle,
        },
        TraceEvent::QueueCreate { seq, queue_id, size, agent_handle } => TraceEvent::QueueCreate {
            seq: *seq,
            queue_id: *queue_id,
            size: *size,
            agent_handle: *agent_handle,
        },
        TraceEvent::QueueDestroy { seq, queue_id } => TraceEvent::QueueDestroy {
            seq: *seq,
            queue_id: *queue_id,
        },
        TraceEvent::QueueDoorbell { seq, queue_id, value } => TraceEvent::QueueDoorbell {
            seq: *seq,
            queue_id: *queue_id,
            value: *value,
        },
        TraceEvent::QueueIndexStore { seq, queue_id, which, value } => TraceEvent::QueueIndexStore {
            seq: *seq,
            queue_id: *queue_id,
            which: which.clone(),
            value: *value,
        },
        TraceEvent::PacketObserved { seq, queue_id, packet_index, packet_type } => TraceEvent::PacketObserved {
            seq: *seq,
            queue_id: *queue_id,
            packet_index: *packet_index,
            packet_type: *packet_type,
        },
        TraceEvent::PacketValidateFailed { seq, queue_id, detail } => TraceEvent::PacketValidateFailed {
            seq: *seq,
            queue_id: *queue_id,
            detail: detail.clone(),
        },
        TraceEvent::Unsupported { seq, api, detail } => TraceEvent::Unsupported {
            seq: *seq,
            api: api.clone(),
            detail: detail.clone(),
        },
        TraceEvent::DispatchValidated { seq, queue_id, packet_index, packet_type, dimensions, workgroup_size, grid_size, private_segment_size, group_segment_size, kernel_object, kernarg_class, completion_signal } => TraceEvent::DispatchValidated {
            seq: *seq,
            queue_id: *queue_id,
            packet_index: *packet_index,
            packet_type: *packet_type,
            dimensions: *dimensions,
            workgroup_size: *workgroup_size,
            grid_size: *grid_size,
            private_segment_size: *private_segment_size,
            group_segment_size: *group_segment_size,
            kernel_object: *kernel_object,
            kernarg_class: kernarg_class.clone(),
            completion_signal: *completion_signal,
        },
        TraceEvent::DispatchRejected { seq, queue_id, packet_index, packet_type, detail, contract } => TraceEvent::DispatchRejected {
            seq: *seq,
            queue_id: *queue_id,
            packet_index: *packet_index,
            packet_type: *packet_type,
            detail: detail.clone(),
            contract: contract.clone(),
        },
        TraceEvent::DiagnosticComplete { seq, queue_id, packet_index, completion_signal, contract, note } => TraceEvent::DiagnosticComplete {
            seq: *seq,
            queue_id: *queue_id,
            packet_index: *packet_index,
            completion_signal: *completion_signal,
            contract: contract.clone(),
            note: note.clone(),
        },
    }
}

/// The sequence number after `s` (saturating).
pub open spec fn bump_seq(s: u64) -> u64 {
    if s == u64::MAX {
        u64::MAX
    } else {
        (s + 1) as u64
    }
}

/// `b` is `a` after taking the next sequence number and recording one event
/// (its last).
pub open spec fn logged_one(a: TraceLog, b: TraceLog) -> bool {
    &&& b.seq == bump_seq(a.seq)
    &&& b.capacity == a.capacity
    &&& b.events@.len() > 0
    &&& b.events@ == ring_record(a.events@, a.capacity as nat, b.events@.last())
}

/// After any sequence of records a ring holds at most its capacity, and the
/// newest event is last.
pub proof fn lemma_ring_bounded(events: Seq<TraceEvent>, cap: nat, e: TraceEvent)
    requires
        cap >= 1,
        events.len() <= cap,
    ensures
        ring_record(events, cap, e).len() <= cap,
        ring_record(events, cap, e).last() == e,
        events.len() < cap ==> ring_record(events, cap, e) == events.push(e),
{
}

} // verus!
