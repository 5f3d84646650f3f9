//! Task control blocks.
use vstd::prelude::*;

verus! {

/// Task states
#[derive(Clone, Copy, Debug, PartialEq, Eq, Structural)]
pub enum TaskState {
    /// Waiting for some event
    Pending,
    /// Ready to run
    Ready,
    /// Currently running
    Running,
}

/// Task pend reasons and the data that goes with them
#[derive(Clone, Copy, Debug, PartialEq, Eq, Structural)]
pub enum TaskPendReason {
    /// The task is not pending
    NotPending,
    /// The task is suspended until it is resumed
    Suspended,
    /// The task is sleeping until the tick counter reaches this value
    Sleep(u64),
}

/// Task control block
///
/// `SP` is the type of the saved stack pointer; the kernel only stores it.
#[derive(Debug)]
pub struct Task<SP> {
    /// Task ID
    pub id: usize,
    /// Task priority, a lower number meaning a higher priority
    pub priority: usize,
    /// Saved stack pointer
    pub stack_ptr: SP,
    /// Task state
    pub state: TaskState,
    /// Task pend reason
    pub pend: TaskPendReason,
}

impl<SP> Task<SP> {
    /// A task that is Ready or Running may be selected by the scheduler.
    pub open spec fn runnable(&self) -> bool {
        self.state == TaskState::Ready || self.state == TaskState::Running
    }

    /// The state and the pend reason agree: a Pending task has a reason, a
    /// runnable one has none.
    pub open spec fn pend_consistent(&self) -> bool {
        (self.state == TaskState::Pending) == (self.pend != TaskPendReason::NotPending)
    }

    /// Check if the task is runnable
    pub fn is_runnable(&self) -> (r: bool)
        ensures
            r == self.runnable(),
    {
        self.state == TaskState::Ready || self.state == TaskState::Running
    }
}

/// Tasks compare by priority alone.
impl<SP> PartialEq for Task<SP> {
    fn eq(&self, other: &Self) -> (r: bool) {
        self.priority == other.priority
    }
}

impl<SP> vstd::std_specs::cmp::PartialEqSpecImpl for Task<SP> {
    open spec fn obeys_eq_spec() -> bool {
        true
    }

    open spec fn eq_spec(&self, other: &Self) -> bool {
        self.priority == other.priority
    }
}

/// Tasks are ordered by priority number: a task is less than another when
/// it is more urgent.
impl<SP> PartialOrd for Task<SP> {
    fn partial_cmp(&self, other: &Self) -> (r: Option<core::cmp::Ordering>) {
        if self.priority < other.priority {
            Some(core::cmp::Ordering::Less)
        } else if self.priority == other.priority {
            Some(core::cmp::Ordering::Equal)
        } else {
            Some(core::cmp::Ordering::Greater)
        }
    }
}

impl<SP> vstd::std_specs::cmp::PartialOrdSpecImpl for Task<SP> {
    open spec fn obeys_partial_cmp_spec() -> bool {
        true
    }

    open spec fn partial_cmp_spec(&self, other: &Self) -> Option<core::cmp::Ordering> {
        if self.priority < other.priority {
            Some(core::cmp::Ordering::Less)
        } else if self.priority == other.priority {
            Some(core::cmp::Ordering::Equal)
        } else {
            Some(core::cmp::Ordering::Greater)
        }
    }
}

} // verus!
