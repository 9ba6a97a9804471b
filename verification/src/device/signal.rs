//! Host signals.
//!
//! A signal holds a value and a cancelled flag. A wait decides from those
//! two alone: a cancelled signal answers `Cancelled`, a satisfied condition
//! answers `Satisfied`, and otherwise a finite wait times out.
use super::handle::PackedHandle;
use vstd::prelude::*;

verus! {

/// HSA signal condition codes.
#[derive(Debug, Clone, Copy, PartialEq, Eq, Structural)]
pub enum SignalCondition {
    Eq,
    Ne,
    Lt,
    Gte,
}

pub open spec fn condition_of(value: u32) -> Option<SignalCondition> {
    if value == 0 {
        Some(SignalCondition::Eq)
    } else if value == 1 {
        Some(SignalCondition::Ne)
    } else if value == 2 {
        Some(SignalCondition::Lt)
    } else if value == 3 {
        Some(SignalCondition::Gte)
    } else {
        None
    }
}

pub open spec fn holds(c: SignalCondition, observed: i64, compare: i64) -> bool {
    match c {
        SignalCondition::Eq => observed == compare,
        SignalCondition::Ne => observed != compare,
        SignalCondition::Lt => observed < compare,
        SignalCondition::Gte => observed >= compare,
    }
}

/// How the wait conditions relate: `Ne` is the negation of `Eq` and `Gte`
/// of `Lt`; a value equals itself, is at least itself and is not below
/// itself; `Lt` means strictly below and is asymmetric; two values each at
/// least the other are equal.
pub proof fn lemma_condition_laws(o: i64, c: i64)
    ensures
        holds(SignalCondition::Ne, o, c) <==> !holds(SignalCondition::Eq, o, c),
        holds(SignalCondition::Gte, o, c) <==> !holds(SignalCondition::Lt, o, c),
        holds(SignalCondition::Eq, o, o),
        holds(SignalCondition::Gte, o, o),
        !holds(SignalCondition::Lt, o, o),
        !holds(SignalCondition::Ne, o, o),
        holds(SignalCondition::Eq, o, c) ==> o == c,
        holds(SignalCondition::Lt, o, c) ==> o < c && !holds(SignalCondition::Lt, c, o),
        holds(SignalCondition::Gte, o, c) && holds(SignalCondition::Gte, c, o) ==> holds(SignalCondition::Eq, o, c),
{
}

impl SignalCondition {
    pub fn from_u32(value: u32) -> (r: Option<Self>)
        ensures
            r == condition_of(value),
    {
        match value {
            0 => Some(SignalCondition::Eq),
            1 => Some(SignalCondition::Ne),
            2 => Some(SignalCondition::Lt),
            3 => Some(SignalCondition::Gte),
            _ => None,
        }
    }

    pub fn satisfied(self, observed: i64, compare: i64) -> (r: bool)
        ensures
            r == holds(self, observed, compare),
    {
        match self {
            SignalCondition::Eq => observed == compare,
            SignalCondition::Ne => observed != compare,
            SignalCondition::Lt => observed < compare,
            SignalCondition::Gte => observed >= compare,
        }
    }
}

/// Outcome of a wait, with the value observed last.
#[derive(Debug, Clone, Copy, PartialEq, Eq, Structural)]
pub enum SignalWaitOutcome {
    Satisfied(i64),
    TimedOut(i64),
    Cancelled(i64),
}

/// A host signal.
#[derive(Debug, Clone, Copy)]
pub struct SoftGpuSignal {
    pub handle: PackedHandle,
    pub value: i64,
    pub cancelled: bool,
    /// Owned as a queue doorbell.
    pub is_doorbell: bool,
    pub queue_id: Option<u64>,
}

/// What a wait on a signal in state (`value`, `cancelled`) answers.
pub open spec fn wait_spec(value: i64, cancelled: bool, c: SignalCondition, compare: i64) -> SignalWaitOutcome {
    if cancelled {
        SignalWaitOutcome::Cancelled(value)
    } else if holds(c, value, compare) {
        SignalWaitOutcome::Satisfied(value)
    } else {
        SignalWaitOutcome::TimedOut(value)
    }
}

impl SoftGpuSignal {
    pub fn new(handle: PackedHandle, initial: i64) -> (s: Self)
        ensures
            s.handle == handle,
            s.value == initial,
            !s.cancelled,
            !s.is_doorbell,
            s.queue_id is None,
    {
        SoftGpuSignal { handle, value: initial, cancelled: false, is_doorbell: false, queue_id: None }
    }

    pub fn new_doorbell(handle: PackedHandle, initial: i64, queue_id: u64) -> (s: Self)
        ensures
            s.handle == handle,
            s.value == initial,
            !s.cancelled,
            s.is_doorbell,
            s.queue_id == Some(queue_id),
    {
        SoftGpuSignal { handle, value: initial, cancelled: false, is_doorbell: true, queue_id: Some(queue_id) }
    }

    pub fn load(&self) -> (v: i64)
        ensures
            v == self.value,
    {
        self.value
    }

    pub fn store(&mut self, value: i64)
        ensures
            final(self).value == value,
            final(self).cancelled == old(self).cancelled,
            final(self).handle == old(self).handle,
            final(self).is_doorbell == old(self).is_doorbell,
            final(self).queue_id == old(self).queue_id,
    {
        self.value = value;
    }

    pub fn cancel(&mut self)
        ensures
            final(self).cancelled,
            final(self).value == old(self).value,
            final(self).handle == old(self).handle,
            final(self).is_doorbell == old(self).is_doorbell,
            final(self).queue_id == old(self).queue_id,
    {
        self.cancelled = true;
    }

    pub fn is_cancelled(&self) -> (r: bool)
        ensures
            r == self.cancelled,
    {
        self.cancelled
    }

    /// Wait until `condition` holds against `compare`, the signal is
    /// cancelled, or the timeout passes. Nothing else can change the signal
    /// while this call holds it, so the answer is decided at once; an
    /// unbounded wait (`u64::MAX`) on a condition that does not hold and an
    /// uncancelled signal would never return.
    pub fn wait(&self, condition: SignalCondition, compare: i64, timeout_hint_ns: u64, wait_state_hint: u32) -> (r:
        SignalWaitOutcome)
        requires
            self.cancelled || holds(condition, self.value, compare) || timeout_hint_ns != u64::MAX,
        ensures
            r == wait_spec(self.value, self.cancelled, condition, compare),
    {
        if self.is_cancelled() {
            return SignalWaitOutcome::Cancelled(self.load());
        }
        let observed = self.load();
        if condition.satisfied(observed, compare) {
            return SignalWaitOutcome::Satisfied(observed);
        }
        SignalWaitOutcome::TimedOut(observed)
    }
}

} // verus!
