//! The portable kernel: task list, tick counter and scheduling decisions.
use vstd::prelude::*;

use crate::task::{Task, TaskPendReason, TaskState};

verus! {

/// Every identifier occurs at most once in `ts`.
pub open spec fn ids_unique<SP>(ts: Seq<Task<SP>>) -> bool {
    forall|i: int, j: int|
        0 <= i < ts.len() && 0 <= j < ts.len() && i != j ==> ts[i].id != ts[j].id
}

/// No two tasks of `ts` share a priority.
pub open spec fn priorities_unique<SP>(ts: Seq<Task<SP>>) -> bool {
    forall|i: int, j: int|
        0 <= i < ts.len() && 0 <= j < ts.len() && i != j ==> ts[i].priority != ts[j].priority
}

/// Some task of `ts` has identifier `id`.
pub open spec fn has_id<SP>(ts: Seq<Task<SP>>, id: usize) -> bool {
    exists|i: int| 0 <= i < ts.len() && ts[i].id == id
}

/// The position of the task with identifier `id` in `ts`.
pub open spec fn index_of<SP>(ts: Seq<Task<SP>>, id: usize) -> int {
    choose|i: int| 0 <= i < ts.len() && ts[i].id == id
}

/// Some task of `ts` is runnable.
pub open spec fn has_runnable<SP>(ts: Seq<Task<SP>>) -> bool {
    exists|i: int| 0 <= i < ts.len() && ts[i].runnable()
}

/// `t` with a new state and pend reason.
pub open spec fn with_state<SP>(t: Task<SP>, state: TaskState, pend: TaskPendReason) -> Task<SP> {
    Task { id: t.id, priority: t.priority, stack_ptr: t.stack_ptr, state, pend }
}

/// The task as the wake sweep leaves it at tick `tick`: a sleep that has
/// expired makes it Ready; anything else stays as it was.
pub open spec fn woken<SP>(t: Task<SP>, tick: u64) -> Task<SP> {
    match t.pend {
        TaskPendReason::Sleep(wake) => if wake <= tick {
            with_state(t, TaskState::Ready, TaskPendReason::NotPending)
        } else {
            t
        },
        _ => t,
    }
}

/// The wake sweep over the whole task list.
pub open spec fn wake_all<SP>(ts: Seq<Task<SP>>, tick: u64) -> Seq<Task<SP>> {
    Seq::new(ts.len(), |i: int| woken(ts[i], tick))
}

/// Among the first `hi` tasks, `ts[i]` is runnable, no runnable one has a
/// smaller priority number, and every runnable one before it has a larger one.
pub open spec fn selected_within<SP>(ts: Seq<Task<SP>>, i: int, hi: int) -> bool {
    &&& 0 <= i < hi <= ts.len()
    &&& ts[i].runnable()
    &&& forall|j: int| 0 <= j < hi && #[trigger] ts[j].runnable() ==> ts[i].priority <= ts[j].priority
    &&& forall|j: int| 0 <= j < i && #[trigger] ts[j].runnable() ==> ts[i].priority < ts[j].priority
}

/// `ts[i]` is the task the scheduler selects: the runnable task with the
/// smallest priority number, the first one seen if several share it.
pub open spec fn is_selected<SP>(ts: Seq<Task<SP>>, i: int) -> bool {
    selected_within(ts, i, ts.len() as int)
}

/// The position of the selected task, where there is one.
pub open spec fn selection<SP>(ts: Seq<Task<SP>>) -> int {
    choose|i: int| is_selected(ts, i)
}

/// The switch the scheduler asks for over the (already swept) task list
/// `ts` when `curr` runs: the selected task, unless there is none or it is
/// the current task.
pub open spec fn decide_next<SP>(ts: Seq<Task<SP>>, curr: Option<usize>) -> Option<usize> {
    if exists|i: int| is_selected(ts, i) {
        let id = ts[selection(ts)].id;
        if curr == Some(id) {
            None
        } else {
            Some(id)
        }
    } else {
        None
    }
}

/// At most one task is selected.
pub proof fn lemma_selection_unique<SP>(ts: Seq<Task<SP>>, a: int, b: int)
    requires
        is_selected(ts, a),
        is_selected(ts, b),
    ensures
        a == b,
{
    if a < b {
        assert(ts[a].runnable());
    } else if b < a {
        assert(ts[b].runnable());
    }
}

/// With unique identifiers, the position of a task is the one `index_of` names.
pub proof fn lemma_index_of<SP>(ts: Seq<Task<SP>>, i: int)
    requires
        ids_unique(ts),
        0 <= i < ts.len(),
    ensures
        index_of(ts, ts[i].id) == i,
{
    let id = ts[i].id;
    assert(0 <= i < ts.len() && ts[i].id == id);
    let k = index_of(ts, id);
    assert(0 <= k < ts.len() && ts[k].id == id);
}

/// `ts` with the task `id` put in the given state and pend reason.
pub open spec fn set_state<SP>(
    ts: Seq<Task<SP>>,
    id: usize,
    state: TaskState,
    pend: TaskPendReason,
) -> Seq<Task<SP>> {
    ts.update(index_of(ts, id), with_state(ts[index_of(ts, id)], state, pend))
}

/// A newly created task: Ready and not pending.
pub open spec fn fresh_task<SP>(id: usize, priority: usize, stack_ptr: SP) -> Task<SP> {
    Task { id, priority, stack_ptr, state: TaskState::Ready, pend: TaskPendReason::NotPending }
}

/// The task a call that takes an optional identifier acts on: the one
/// named, or else the current task.
pub open spec fn target_of(id: Option<usize>, curr: Option<usize>) -> usize {
    match id {
        Some(x) => x,
        None => curr->0,
    }
}

/// `ts` once the outgoing task `curr` (if any) has its saved stack pointer
/// `sp` (if given) and, were it Running, is Ready again.
pub open spec fn demoted<SP>(ts: Seq<Task<SP>>, curr: Option<usize>, sp: Option<SP>) -> Seq<
    Task<SP>,
> {
    match curr {
        None => ts,
        Some(c) => {
            let t = ts[index_of(ts, c)];
            let stack_ptr = match sp {
                Some(s) => s,
                None => t.stack_ptr,
            };
            let state = if t.state == TaskState::Running {
                TaskState::Ready
            } else {
                t.state
            };
            ts.update(
                index_of(ts, c),
                Task { id: t.id, priority: t.priority, stack_ptr, state, pend: t.pend },
            )
        },
    }
}

/// If some task is runnable, one is selected.
pub proof fn lemma_selection_exists<SP>(ts: Seq<Task<SP>>)
    requires
        has_runnable(ts),
    ensures
        exists|i: int| is_selected(ts, i),
{
    lemma_selected_within_exists(ts, ts.len() as int);
    let b = choose|i: int| selected_within(ts, i, ts.len() as int);
    assert(is_selected(ts, b));
}

proof fn lemma_selected_within_exists<SP>(ts: Seq<Task<SP>>, hi: int)
    requires
        0 <= hi <= ts.len(),
        exists|j: int| 0 <= j < hi && ts[j].runnable(),
    ensures
        exists|i: int| selected_within(ts, i, hi),
    decreases hi,
{
    let k = hi - 1;
    if exists|j: int| 0 <= j < k && ts[j].runnable() {
        lemma_selected_within_exists(ts, k);
        let b = choose|i: int| selected_within(ts, i, k);
        if ts[k].runnable() && ts[k].priority < ts[b].priority {
            assert(selected_within(ts, k, hi));
        } else {
            assert(selected_within(ts, b, hi));
        }
    } else {
        assert(selected_within(ts, k, hi));
    }
}

/// Kernel
///
/// * `SP`: the stack pointer type
/// * `MAX_NUM_TASKS`: upper bound on the number of tasks
pub struct Kernel<SP, const MAX_NUM_TASKS: usize> {
    /// Kernel state
    is_running: bool,
    /// Global tick counter
    tick_counter: u64,
    /// Task list
    task_list: Vec<Task<SP>>,
    /// Current task ID
    curr_task_id: Option<usize>,
    /// Next task ID
    next_task_id: Option<usize>,
}

impl<SP: Copy, const MAX_NUM_TASKS: usize> Kernel<SP, MAX_NUM_TASKS> {
    /// The task control blocks, in order of creation.
    pub closed spec fn tasks(&self) -> Seq<Task<SP>> {
        self.task_list@
    }

    /// The global tick counter.
    pub closed spec fn tick(&self) -> u64 {
        self.tick_counter
    }

    /// Whether the kernel has been started.
    pub closed spec fn running(&self) -> bool {
        self.is_running
    }

    /// The identifier of the task that currently owns the CPU, if any.
    pub closed spec fn curr(&self) -> Option<usize> {
        self.curr_task_id
    }

    /// The identifier of the task the scheduler wants to switch to, if any.
    pub closed spec fn next(&self) -> Option<usize> {
        self.next_task_id
    }

    /// Everything the kernel keeps true, save what the scheduler
    /// re-establishes about the next task.
    pub open spec fn wf_tasks(&self) -> bool {
        let ts = self.tasks();
        &&& ts.len() <= MAX_NUM_TASKS
        &&& ids_unique(ts)
        &&& priorities_unique(ts)
        &&& forall|i: int| 0 <= i < ts.len() ==> (#[trigger] ts[i]).pend_consistent()
        &&& forall|i: int|
            0 <= i < ts.len() && (#[trigger] ts[i]).state == TaskState::Running ==> self.curr()
                == Some(ts[i].id)
        &&& self.curr() is Some ==> has_id(ts, self.curr()->0)
        &&& !self.running() ==> self.curr() is None && self.next() is None
        &&& !self.running() ==> forall|i: int|
            0 <= i < ts.len() ==> !((#[trigger] ts[i]).pend is Sleep)
    }

    /// The kernel's invariant: `wf_tasks`, and a pending switch names a
    /// runnable task.
    pub open spec fn wf(&self) -> bool {
        &&& self.wf_tasks()
        &&& self.next() is Some ==> exists|i: int|
            0 <= i < self.tasks().len() && self.tasks()[i].id == self.next()->0
                && self.tasks()[i].runnable()
    }

    /// The kernel after a scheduler pass over the task list `ts`: once
    /// running, the wake sweep has run and the next task is decided; before
    /// that, nothing changes and no switch is asked for.
    pub open spec fn scheduled_from(&self, ts: Seq<Task<SP>>) -> bool {
        if self.running() {
            &&& self.tasks() == wake_all(ts, self.tick())
            &&& self.next() == decide_next(self.tasks(), self.curr())
        } else {
            &&& self.tasks() == ts
            &&& self.next() is None
        }
    }

    /// Whether the kernel runs, the tick and the current task are as in `pre`.
    pub open spec fn same_frame(&self, pre: &Self) -> bool {
        &&& self.running() == pre.running()
        &&& self.tick() == pre.tick()
        &&& self.curr() == pre.curr()
    }

    /// `post` is what `suspend` makes of `pre` for the task `target`.
    pub open spec fn suspend_step(pre: &Self, post: &Self, target: usize) -> bool {
        &&& post.same_frame(pre)
        &&& post.scheduled_from(
            set_state(pre.tasks(), target, TaskState::Pending, TaskPendReason::Suspended),
        )
    }

    /// `post` is what `resume` makes of `pre` for the task `id`.
    pub open spec fn resume_step(pre: &Self, post: &Self, id: usize) -> bool {
        &&& post.same_frame(pre)
        &&& post.scheduled_from(
            set_state(pre.tasks(), id, TaskState::Ready, TaskPendReason::NotPending),
        )
    }

    /// `post` is what `sleep` makes of `pre` for a delay of `delay` ticks:
    /// the current task pends until the tick reaches `tick + delay`.
    pub open spec fn sleep_step(pre: &Self, post: &Self, delay: u64) -> bool {
        &&& post.same_frame(pre)
        &&& post.scheduled_from(
            set_state(
                pre.tasks(),
                pre.curr()->0,
                TaskState::Pending,
                TaskPendReason::Sleep((pre.tick() + delay) as u64),
            ),
        )
    }

    /// `post` is what `tick_update` makes of `pre` when `elapsed` ticks passed.
    pub open spec fn tick_step(pre: &Self, post: &Self, elapsed: u64) -> bool {
        &&& post.running() == pre.running()
        &&& post.curr() == pre.curr()
        &&& post.tick() == pre.tick() + elapsed
        &&& post.scheduled_from(pre.tasks())
    }

    /// `post` is what `delete` makes of `pre` for the task `target`.
    pub open spec fn delete_step(pre: &Self, post: &Self, target: usize) -> bool {
        &&& post.running() == pre.running()
        &&& post.tick() == pre.tick()
        &&& post.curr() == if pre.curr() == Some(target) {
            None
        } else {
            pre.curr()
        }
        &&& post.scheduled_from(pre.tasks().remove(index_of(pre.tasks(), target)))
    }

    /// `post` is what `handle_context_switch` makes of `pre` when the
    /// outgoing task saved its stack pointer as `sp`: the pending switch is
    /// committed and the incoming task runs.
    pub open spec fn switch_step(pre: &Self, post: &Self, sp: Option<SP>) -> bool {
        let ts = demoted(pre.tasks(), pre.curr(), sp);
        let n = pre.next()->0;
        &&& post.running() == pre.running()
        &&& post.tick() == pre.tick()
        &&& post.curr() == pre.next()
        &&& post.next() is None
        &&& post.tasks() == set_state(ts, n, TaskState::Running, ts[index_of(ts, n)].pend)
    }

    /// The task list as `start` sweeps it.
    pub open spec fn swept(&self) -> Seq<Task<SP>> {
        wake_all(self.tasks(), self.tick())
    }

    /// Initialize the kernel
    pub fn new() -> (r: Self)
        ensures
            r.wf(),
            r.tasks() == Seq::<Task<SP>>::empty(),
            r.tick() == 0,
            !r.running(),
            r.curr() is None,
            r.next() is None,
    {
        Kernel {
            is_running: false,
            tick_counter: 0,
            task_list: Vec::new(),
            curr_task_id: None,
            next_task_id: None,
        }
    }

    /// Create a task with a unique `id` and a unique `priority` (a lower
    /// number meaning a higher priority); the caller owns its stack.
    /// Returns whether a context switch is needed.
    pub fn create(&mut self, id: usize, priority: usize, stack_ptr: SP) -> (r: bool)
        requires
            old(self).wf(),
            !has_id(old(self).tasks(), id),
            old(self).tasks().len() < MAX_NUM_TASKS,
            forall|i: int|
                0 <= i < old(self).tasks().len() ==> old(self).tasks()[i].priority != priority,
        ensures
            final(self).wf(),
            final(self).same_frame(old(self)),
            final(self).scheduled_from(old(self).tasks().push(fresh_task(id, priority, stack_ptr))),
            r == final(self).next() is Some,
    {
        self.task_list.push(
            Task {
                id,
                priority,
                stack_ptr,
                state: TaskState::Ready,
                pend: TaskPendReason::NotPending,
            },
        );
        proof {
            let ts = old(self).task_list@;
            let ps = self.task_list@;
            assert(ps == ts.push(fresh_task(id, priority, stack_ptr)));
            assert forall|i: int| 0 <= i < ts.len() implies ps[i] == ts[i] by {}
            if self.curr() is Some {
                let c = self.curr()->0;
                let k = choose|k: int| 0 <= k < ts.len() && ts[k].id == c;
                assert(ps[k].id == c);
            }
        }
        self.scheduler()
    }

    /// Delete a task: the one `id` names, or the current task for `None`.
    /// Deleting the current task leaves no current task until the next
    /// switch. Returns whether a context switch is needed.
    pub fn delete(&mut self, id: Option<usize>) -> (r: bool)
        requires
            old(self).wf(),
            old(self).running(),
            match id {
                Some(x) => has_id(old(self).tasks(), x),
                None => old(self).curr() is Some,
            },
        ensures
            final(self).wf(),
            Self::delete_step(old(self), final(self), target_of(id, old(self).curr())),
            r == final(self).next() is Some,
    {
        let target = match id {
            Some(x) => x,
            None => self.curr_task_id.unwrap(),
        };
        let idx = self.find_task_idx(target);
        proof {
            lemma_index_of(self.task_list@, idx as int);
            self.task_list@.remove_ensures(idx as int);
        }
        let _ = self.task_list.remove(idx);
        match self.curr_task_id {
            Some(c) => {
                if c == target {
                    self.curr_task_id = None;
                }
            },
            None => {},
        }
        proof {
            let ts = old(self).task_list@;
            let ps = self.task_list@;
            assert forall|j: int| 0 <= j < ps.len() implies ps[j] == ts[if j < idx {
                j
            } else {
                j + 1
            }] by {}
            if self.curr() is Some {
                let c = self.curr()->0;
                let k = choose|k: int| 0 <= k < ts.len() && ts[k].id == c;
                assert(k != idx);
                if k < idx {
                    assert(ps[k].id == c);
                } else {
                    assert(ps[k - 1].id == c);
                }
            }
            assert forall|j: int|
                0 <= j < ps.len() && (#[trigger] ps[j]).state == TaskState::Running implies self.curr()
                == Some(ps[j].id) by {
                let k = if j < idx {
                    j
                } else {
                    j + 1
                };
                assert(ts[k].state == TaskState::Running);
                assert(k != idx);
            }
        }
        self.scheduler()
    }

    /// Start the kernel: the scheduler selects the first task, which
    /// becomes the current one. Returns its stack pointer.
    pub fn start(&mut self) -> (r: SP)
        requires
            old(self).wf(),
            !old(self).running(),
            has_runnable(old(self).tasks()),
        ensures
            final(self).wf(),
            final(self).running(),
            final(self).tick() == old(self).tick(),
            final(self).curr() == Some(old(self).swept()[selection(old(self).swept())].id),
            final(self).next() is None,
            final(self).tasks() == set_state(
                old(self).swept(),
                old(self).swept()[selection(old(self).swept())].id,
                TaskState::Running,
                TaskPendReason::NotPending,
            ),
            r == old(self).swept()[selection(old(self).swept())].stack_ptr,
    {
        proof {
            assert(self.swept() =~= self.tasks());
        }
        self.is_running = true;
        let _ = self.scheduler();
        proof {
            lemma_selection_exists(self.tasks());
        }
        self.handle_context_switch(None)
    }

    /// The ID of the current task
    pub fn get_current_task(&self) -> (r: usize)
        requires
            self.curr() is Some,
        ensures
            r == self.curr()->0,
    {
        self.curr_task_id.unwrap()
    }

    /// The value of the global tick counter
    pub fn get_current_tick(&self) -> (r: u64)
        ensures
            r == self.tick(),
    {
        self.tick_counter
    }

    /// Sleep the current task for `delay` ticks.
    /// Returns whether a context switch is needed.
    pub fn sleep(&mut self, delay: u64) -> (r: bool)
        requires
            old(self).wf(),
            old(self).curr() is Some,
            old(self).tick() + delay <= u64::MAX,
        ensures
            final(self).wf(),
            Self::sleep_step(old(self), final(self), delay),
            r == final(self).next() is Some,
    {
        let new_tick_counter = self.tick_counter + delay;
        let curr = self.curr_task_id.unwrap();
        self.set_task_state(curr, TaskState::Pending, TaskPendReason::Sleep(new_tick_counter));
        self.scheduler()
    }

    /// Suspend a task: the one `id` names, or the current task for `None`.
    /// Returns whether a context switch is needed.
    pub fn suspend(&mut self, id: Option<usize>) -> (r: bool)
        requires
            old(self).wf(),
            match id {
                Some(x) => has_id(old(self).tasks(), x),
                None => old(self).curr() is Some,
            },
        ensures
            final(self).wf(),
            Self::suspend_step(old(self), final(self), target_of(id, old(self).curr())),
            r == final(self).next() is Some,
    {
        let target = match id {
            Some(x) => x,
            None => self.curr_task_id.unwrap(),
        };
        self.set_task_state(target, TaskState::Pending, TaskPendReason::Suspended);
        self.scheduler()
    }

    /// Resume a task, whether it was suspended, sleeping or already Ready.
    /// Returns whether a context switch is needed.
    pub fn resume(&mut self, id: usize) -> (r: bool)
        requires
            old(self).wf(),
            has_id(old(self).tasks(), id),
        ensures
            final(self).wf(),
            Self::resume_step(old(self), final(self), id),
            r == final(self).next() is Some,
    {
        self.set_task_state(id, TaskState::Ready, TaskPendReason::NotPending);
        self.scheduler()
    }

    /// Advance the global tick counter by `elapsed` ticks.
    /// Returns whether a context switch is needed.
    pub fn tick_update(&mut self, elapsed: u64) -> (r: bool)
        requires
            old(self).wf(),
            old(self).tick() + elapsed <= u64::MAX,
        ensures
            final(self).wf(),
            final(self).tick() >= old(self).tick(),
            Self::tick_step(old(self), final(self), elapsed),
            r == final(self).next() is Some,
    {
        self.tick_counter = self.tick_counter + elapsed;
        self.scheduler()
    }

    /// Commit the switch the scheduler asked for: the outgoing task (if
    /// any) stores `updated_stack_ptr` (if given) and stops running, and the
    /// next task becomes the current one. Returns its stack pointer.
    pub fn handle_context_switch(&mut self, updated_stack_ptr: Option<SP>) -> (r: SP)
        requires
            old(self).wf(),
            old(self).next() is Some,
        ensures
            final(self).wf(),
            Self::switch_step(old(self), final(self), updated_stack_ptr),
            r == final(self).tasks()[index_of(final(self).tasks(), old(self).next()->0)].stack_ptr,
    {
        match self.curr_task_id {
            Some(curr_task_id) => {
                let i = self.find_task_idx(curr_task_id);
                proof {
                    lemma_index_of(self.task_list@, i as int);
                }
                match updated_stack_ptr {
                    Some(sp) => {
                        self.task_list[i].stack_ptr = sp;
                    },
                    None => {},
                }
                if self.task_list[i].state == TaskState::Running {
                    self.task_list[i].state = TaskState::Ready;
                }
            },
            None => {},
        }
        let ghost ds = self.task_list@;
        proof {
            let ts = old(self).task_list@;
            assert(ds =~= demoted(ts, old(self).curr(), updated_stack_ptr));
            assert forall|j: int| 0 <= j < ds.len() implies ds[j].id == ts[j].id && ds[j].priority
                == ts[j].priority && ds[j].pend == ts[j].pend && ds[j].runnable() == ts[j].runnable()
                && ds[j].state != TaskState::Running by {
                if ts[j].state == TaskState::Running {
                    assert(ts[j].id == old(self).curr()->0);
                    lemma_index_of(ts, j);
                }
            }
            let k = choose|k: int|
                0 <= k < ts.len() && ts[k].id == old(self).next()->0 && ts[k].runnable();
            assert(ds[k].id == old(self).next()->0);
        }
        let next_task_id = self.next_task_id.unwrap();
        self.curr_task_id = Some(next_task_id);
        self.next_task_id = None;
        let j = self.find_task_idx(next_task_id);
        proof {
            lemma_index_of(self.task_list@, j as int);
            let ts = old(self).task_list@;
            let k = choose|k: int|
                0 <= k < ts.len() && ts[k].id == old(self).next()->0 && ts[k].runnable();
            lemma_index_of(ts, k);
            assert(k == j);
        }
        self.task_list[j].state = TaskState::Running;
        proof {
            let ps = self.task_list@;
            assert(ps =~= set_state(ds, next_task_id, TaskState::Running, ds[j as int].pend));
            assert(ps[j as int].id == next_task_id);
            lemma_index_of(ps, j as int);
            assert forall|m: int| 0 <= m < ps.len() implies (#[trigger] ps[m]).pend_consistent() by {
                assert(ds[m].id == old(self).task_list@[m].id);
                assert(old(self).task_list@[m].pend_consistent());
            }
        }
        self.task_list[j].stack_ptr
    }

    /// The ID of the current task, if there is one
    pub fn curr_task_id(&self) -> (r: Option<usize>)
        ensures
            r == self.curr(),
    {
        self.curr_task_id
    }

    /// The ID of the task a pending switch goes to, if one is pending
    pub fn next_task_id(&self) -> (r: Option<usize>)
        ensures
            r == self.next(),
    {
        self.next_task_id
    }

    /// Whether the kernel has been started
    pub fn is_running(&self) -> (r: bool)
        ensures
            r == self.running(),
    {
        self.is_running
    }

    /// The number of live tasks
    pub fn task_count(&self) -> (r: usize)
        ensures
            r == self.tasks().len(),
    {
        self.task_list.len()
    }

    /// Whether a task with identifier `id` exists
    pub fn contains_task(&self, id: usize) -> (r: bool)
        ensures
            r == has_id(self.tasks(), id),
    {
        let n = self.task_list.len();
        let mut i: usize = 0;
        while i < n
            invariant
                n == self.task_list@.len(),
                0 <= i <= n,
                forall|j: int| 0 <= j < i ==> self.task_list@[j].id != id,
            decreases n - i,
        {
            if self.task_list[i].id == id {
                return true;
            }
            i += 1;
        }
        false
    }

    /// Whether a live task has priority `priority`
    pub fn priority_in_use(&self, priority: usize) -> (r: bool)
        ensures
            r == exists|i: int|
                0 <= i < self.tasks().len() && self.tasks()[i].priority == priority,
    {
        let n = self.task_list.len();
        let mut i: usize = 0;
        while i < n
            invariant
                n == self.task_list@.len(),
                0 <= i <= n,
                forall|j: int| 0 <= j < i ==> self.task_list@[j].priority != priority,
            decreases n - i,
        {
            if self.task_list[i].priority == priority {
                return true;
            }
            i += 1;
        }
        false
    }

    /// Whether some task is Ready or Running
    pub fn has_runnable_task(&self) -> (r: bool)
        ensures
            r == has_runnable(self.tasks()),
    {
        let n = self.task_list.len();
        let mut i: usize = 0;
        while i < n
            invariant
                n == self.task_list@.len(),
                0 <= i <= n,
                forall|j: int| 0 <= j < i ==> !(#[trigger] self.task_list@[j].runnable()),
            decreases n - i,
        {
            if self.task_list[i].is_runnable() {
                return true;
            }
            i += 1;
        }
        false
    }

    /// The state and pend reason of the task `id`, if it exists
    pub fn task_status(&self, id: usize) -> (r: Option<(TaskState, TaskPendReason)>)
        requires
            self.wf(),
        ensures
            r is Some <==> has_id(self.tasks(), id),
            r is Some ==> r == Some(
                (
                    self.tasks()[index_of(self.tasks(), id)].state,
                    self.tasks()[index_of(self.tasks(), id)].pend,
                ),
            ),
    {
        if !self.contains_task(id) {
            return None;
        }
        let i = self.find_task_idx(id);
        proof {
            lemma_index_of(self.task_list@, i as int);
        }
        Some((self.task_list[i].state, self.task_list[i].pend))
    }

    fn scheduler(&mut self) -> (r: bool)
        requires
            old(self).wf_tasks(),
        ensures
            final(self).wf(),
            final(self).same_frame(old(self)),
            final(self).scheduled_from(old(self).tasks()),
            r == final(self).next() is Some,
    {
        if !self.is_running {
            return false;
        }
        let ghost ts = self.task_list@;
        self.update_pending_tasks();
        proof {
            let ws = self.task_list@;
            assert forall|i: int| 0 <= i < ws.len() implies ws[i].id == ts[i].id && ws[i].priority
                == ts[i].priority && ws[i].pend_consistent() && (ws[i].state == TaskState::Running
                ==> ts[i].state == TaskState::Running) by {
                assert(ts[i].pend_consistent());
            }
            if self.curr() is Some {
                let c = self.curr()->0;
                let k = choose|k: int| 0 <= k < ts.len() && ts[k].id == c;
                assert(ws[k].id == c);
            }
        }
        let found = self.find_highest_priority_runnable_task();
        match found {
            Some(next_task_id) => {
                match self.curr_task_id {
                    Some(curr_task_id) => {
                        if curr_task_id == next_task_id {
                            self.next_task_id = None;
                        } else {
                            self.next_task_id = Some(next_task_id);
                        }
                    },
                    None => {
                        self.next_task_id = Some(next_task_id);
                    },
                }
            },
            None => {
                self.next_task_id = None;
            },
        }
        proof {
            let ws = self.task_list@;
            if found is Some {
                let k = selection(ws);
                assert(is_selected(ws, k));
                assert(0 <= k < ws.len() && ws[k].id == found->0 && ws[k].runnable());
            }
        }
        match self.next_task_id {
            Some(_) => true,
            None => false,
        }
    }

    fn set_task_state(&mut self, id: usize, state: TaskState, pend: TaskPendReason)
        requires
            old(self).wf_tasks(),
            has_id(old(self).tasks(), id),
            (state == TaskState::Pending) == (pend != TaskPendReason::NotPending),
            state != TaskState::Running,
            pend is Sleep ==> old(self).running(),
        ensures
            final(self).wf_tasks(),
            final(self).same_frame(old(self)),
            final(self).next() == old(self).next(),
            final(self).tasks() == set_state(old(self).tasks(), id, state, pend),
    {
        let i = self.find_task_idx(id);
        proof {
            lemma_index_of(self.task_list@, i as int);
        }
        self.task_list[i].state = state;
        self.task_list[i].pend = pend;
        proof {
            let ts = old(self).task_list@;
            let ps = self.task_list@;
            assert(ps =~= set_state(ts, id, state, pend));
            if self.curr() is Some {
                let c = self.curr()->0;
                let k = choose|k: int| 0 <= k < ts.len() && ts[k].id == c;
                assert(ps[k].id == c);
            }
        }
    }

    fn update_pending_tasks(&mut self)
        ensures
            final(self).tasks() == wake_all(old(self).tasks(), old(self).tick()),
            final(self).tick() == old(self).tick(),
            final(self).running() == old(self).running(),
            final(self).curr() == old(self).curr(),
            final(self).next() == old(self).next(),
    {
        let n = self.task_list.len();
        let mut i: usize = 0;
        while i < n
            invariant
                n == self.task_list.len(),
                0 <= i <= n,
                self.tick_counter == old(self).tick_counter,
                self.is_running == old(self).is_running,
                self.curr_task_id == old(self).curr_task_id,
                self.next_task_id == old(self).next_task_id,
                self.task_list@.len() == old(self).task_list@.len(),
                forall|j: int|
                    0 <= j < i ==> self.task_list@[j] == woken(
                        old(self).task_list@[j],
                        self.tick_counter,
                    ),
                forall|j: int| i <= j < n ==> self.task_list@[j] == old(self).task_list@[j],
            decreases n - i,
        {
            match self.task_list[i].pend {
                TaskPendReason::Sleep(timeout) => {
                    if self.tick_counter >= timeout {
                        self.task_list[i].state = TaskState::Ready;
                        self.task_list[i].pend = TaskPendReason::NotPending;
                    }
                },
                _ => {},
            }
            i += 1;
        }
        assert(self.task_list@ =~= wake_all(old(self).task_list@, self.tick_counter));
    }

    fn find_highest_priority_runnable_task(&self) -> (r: Option<usize>)
        ensures
            r is Some <==> has_runnable(self.tasks()),
            r is Some <==> exists|i: int| is_selected(self.tasks(), i),
            r is Some ==> r == Some(self.tasks()[selection(self.tasks())].id),
    {
        let ghost ts = self.task_list@;
        let n = self.task_list.len();
        let mut best: Option<usize> = None;
        let mut i: usize = 0;
        while i < n
            invariant
                n == ts.len(),
                ts == self.task_list@,
                0 <= i <= n,
                match best {
                    None => forall|j: int| 0 <= j < i ==> !(#[trigger] ts[j].runnable()),
                    Some(b) => selected_within(ts, b as int, i as int),
                },
            decreases n - i,
        {
            if self.task_list[i].is_runnable() {
                match best {
                    Some(b) => {
                        if self.task_list[i] < self.task_list[b] {
                            best = Some(i);
                        }
                    },
                    None => {
                        best = Some(i);
                    },
                }
            }
            i += 1;
        }
        match best {
            Some(b) => {
                proof {
                    assert(is_selected(ts, b as int));
                    assert(has_runnable(ts));
                    lemma_selection_unique(ts, b as int, selection(ts));
                }
                Some(self.task_list[b].id)
            },
            None => {
                assert(!has_runnable(ts));
                None
            },
        }
    }

    fn find_task_idx(&self, id: usize) -> (r: usize)
        requires
            has_id(self.tasks(), id),
        ensures
            r < self.tasks().len(),
            self.tasks()[r as int].id == id,
    {
        let n = self.task_list.len();
        let mut i: usize = 0;
        while i < n
            invariant
                n == self.task_list@.len(),
                0 <= i <= n,
                forall|j: int| 0 <= j < i ==> self.task_list@[j].id != id,
            decreases n - i,
        {
            if self.task_list[i].id == id {
                return i;
            }
            i += 1;
        }
        i
    }

    /// At most one task is Running, and a Running task is the current task.
    pub proof fn lemma_single_running(k: &Self)
        requires
            k.wf(),
        ensures
            forall|i: int, j: int|
                0 <= i < k.tasks().len() && 0 <= j < k.tasks().len() && k.tasks()[i].state
                    == TaskState::Running && k.tasks()[j].state == TaskState::Running ==> i == j,
            forall|i: int|
                0 <= i < k.tasks().len() && k.tasks()[i].state == TaskState::Running ==> k.curr()
                    == Some(k.tasks()[i].id),
    {
        let ts = k.tasks();
        assert forall|i: int, j: int|
            0 <= i < ts.len() && 0 <= j < ts.len() && ts[i].state == TaskState::Running
                && ts[j].state == TaskState::Running implies i == j by {
            assert(k.curr() == Some(ts[i].id));
            assert(k.curr() == Some(ts[j].id));
        }
    }

    /// The priorities of the live tasks are pairwise distinct.
    pub proof fn lemma_priorities_distinct(k: &Self)
        requires
            k.wf(),
        ensures
            priorities_unique(k.tasks()),
    {
    }

    /// A Pending task has a pend reason; a Ready or Running task has none.
    pub proof fn lemma_pend_matches_state(k: &Self)
        requires
            k.wf(),
        ensures
            forall|i: int|
                0 <= i < k.tasks().len() ==> (k.tasks()[i].state == TaskState::Pending
                    <==> k.tasks()[i].pend != TaskPendReason::NotPending),
    {
        assert forall|i: int| 0 <= i < k.tasks().len() implies (k.tasks()[i].state
            == TaskState::Pending <==> k.tasks()[i].pend != TaskPendReason::NotPending) by {
            assert(k.tasks()[i].pend_consistent());
        }
    }

    /// Suspending a task and then resuming it leaves it Ready and not
    /// pending, in its place and with its identifier, priority and stack
    /// pointer.
    pub proof fn lemma_suspend_resume(k0: &Self, k1: &Self, k2: &Self, id: usize)
        requires
            k0.wf(),
            k1.wf(),
            k2.wf(),
            has_id(k0.tasks(), id),
            Self::suspend_step(k0, k1, id),
            Self::resume_step(k1, k2, id),
        ensures
            index_of(k2.tasks(), id) == index_of(k0.tasks(), id),
            k2.tasks()[index_of(k0.tasks(), id)] == with_state(
                k0.tasks()[index_of(k0.tasks(), id)],
                TaskState::Ready,
                TaskPendReason::NotPending,
            ),
    {
        let p = index_of(k0.tasks(), id);
        assert(0 <= p < k0.tasks().len() && k0.tasks()[p].id == id);
        assert(k1.tasks()[p].id == id);
        lemma_index_of(k1.tasks(), p);
        assert(k2.tasks()[p].id == id);
        lemma_index_of(k2.tasks(), p);
    }

    /// Resuming a task a second time changes nothing.
    pub proof fn lemma_resume_idempotent(k1: &Self, k2: &Self, k3: &Self, id: usize)
        requires
            k1.wf(),
            k2.wf(),
            k3.wf(),
            has_id(k1.tasks(), id),
            Self::resume_step(k1, k2, id),
            Self::resume_step(k2, k3, id),
        ensures
            k3.tasks() == k2.tasks(),
            k3.next() == k2.next(),
            k3.curr() == k2.curr(),
            k3.tick() == k2.tick(),
            k3.running() == k2.running(),
    {
        let p = index_of(k1.tasks(), id);
        assert(0 <= p < k1.tasks().len() && k1.tasks()[p].id == id);
        let ts2 = k2.tasks();
        assert(ts2[p].id == id);
        lemma_index_of(ts2, p);
        let s2 = set_state(ts2, id, TaskState::Ready, TaskPendReason::NotPending);
        assert(s2 =~= ts2);
        if k2.running() {
            assert(wake_all(s2, k3.tick()) =~= ts2);
        }
    }

    /// A task whose sleep has not expired at the kernel's tick is not
    /// woken by a scheduler pass over `ts`, nor chosen as the next task.
    pub proof fn lemma_sleeper_not_selected(k: &Self, ts: Seq<Task<SP>>, i: int, wake: u64)
        requires
            k.wf(),
            k.scheduled_from(ts),
            0 <= i < ts.len(),
            ts[i].pend == TaskPendReason::Sleep(wake),
            k.tick() < wake,
        ensures
            k.tasks()[i] == ts[i],
            k.tasks()[i].state == TaskState::Pending,
            !is_selected(k.tasks(), i),
            k.next() != Some(ts[i].id),
    {
        let ks = k.tasks();
        assert(ks[i] == ts[i]);
        assert(ks[i].pend_consistent());
        if k.next() is Some {
            lemma_selection_exists(ks);
            let sel = selection(ks);
            assert(is_selected(ks, sel));
            assert(sel != i);
        }
    }

    /// A task that sleeps `delay` ticks at tick `T` stays Pending and is not
    /// chosen by that call, nor by a tick update that leaves the tick below
    /// `T + delay`.
    pub proof fn lemma_sleep_then_tick(k0: &Self, k1: &Self, k2: &Self, delay: u64, elapsed: u64)
        requires
            k0.wf(),
            k1.wf(),
            k2.wf(),
            k0.curr() is Some,
            k0.tick() + delay <= u64::MAX,
            Self::sleep_step(k0, k1, delay),
            Self::tick_step(k1, k2, elapsed),
            elapsed < delay,
        ensures
            k1.next() != k0.curr(),
            k2.next() != k0.curr(),
            k2.tasks()[index_of(k0.tasks(), k0.curr()->0)].state == TaskState::Pending,
    {
        let c = k0.curr()->0;
        let p = index_of(k0.tasks(), c);
        assert(0 <= p < k0.tasks().len() && k0.tasks()[p].id == c);
        let wake = (k0.tick() + delay) as u64;
        let ts = set_state(k0.tasks(), c, TaskState::Pending, TaskPendReason::Sleep(wake));
        Self::lemma_sleeper_not_selected(k1, ts, p, wake);
        Self::lemma_sleeper_not_selected(k2, k1.tasks(), p, wake);
    }
}

} // verus!
