use rucos::{Kernel, Task, TaskPendReason, TaskState};

const TASK0_STACK: u32 = 0x2000_0100;
const TASK1_STACK: u32 = 0x2000_0200;

fn setup() -> Kernel<u32, 2> {
    let mut kernel = Kernel::new();

    kernel.create(0, 99, TASK0_STACK);
    kernel.create(1, 100, TASK1_STACK);

    kernel.start();
    assert_eq!(kernel.curr_task_id(), Some(0));
    assert_eq!(kernel.next_task_id(), None);
    assert_eq!(kernel.get_current_task(), 0);

    kernel
}

#[test]
fn test_sleep() {
    let mut kernel = setup();

    assert_eq!(kernel.sleep(2), true);
    assert_eq!(kernel.curr_task_id(), Some(0));
    assert_eq!(kernel.next_task_id(), Some(1));

    let _ = kernel.handle_context_switch(None);

    assert_eq!(kernel.curr_task_id(), Some(1));
    assert_eq!(kernel.next_task_id(), None);
    assert_eq!(kernel.get_current_task(), 1);

    assert_eq!(kernel.tick_update(3), true);
    assert_eq!(kernel.get_current_tick(), 3);
    assert_eq!(kernel.curr_task_id(), Some(1));
    assert_eq!(kernel.next_task_id(), Some(0));
}

#[test]
fn test_suspend_current_task() {
    let mut kernel = setup();

    assert_eq!(kernel.suspend(None), true);
    assert_eq!(kernel.curr_task_id(), Some(0));
    assert_eq!(kernel.next_task_id(), Some(1));
}

#[test]
fn test_suspend_other_task() {
    let mut kernel = setup();

    assert_eq!(kernel.suspend(Some(1)), false);
    assert_eq!(kernel.curr_task_id(), Some(0));
    assert_eq!(kernel.next_task_id(), None);
}

#[test]
fn test_resume() {
    let mut kernel = setup();

    let _ = kernel.suspend(None);
    let _ = kernel.handle_context_switch(None);

    assert_eq!(kernel.resume(0), true);
    assert_eq!(kernel.curr_task_id(), Some(1));
    assert_eq!(kernel.next_task_id(), Some(0));
}

#[test]
fn test_delete_current_task() {
    let mut kernel = setup();

    assert_eq!(kernel.delete(None), true);
    assert_eq!(kernel.curr_task_id(), None);
    assert_eq!(kernel.next_task_id(), Some(1));
}

#[test]
fn test_delete_current_task_by_id() {
    let mut kernel = setup();

    assert_eq!(kernel.delete(Some(0)), true);
    assert_eq!(kernel.curr_task_id(), None);
    assert_eq!(kernel.next_task_id(), Some(1));
}

#[test]
fn test_delete_other_task() {
    let mut kernel = setup();

    let _ = kernel.suspend(None);
    let _ = kernel.handle_context_switch(None);

    assert_eq!(kernel.delete(Some(0)), false);
    assert_eq!(kernel.curr_task_id(), Some(1));
    assert_eq!(kernel.next_task_id(), None);
}

#[test]
fn start_returns_first_task_stack() {
    let mut kernel: Kernel<u32, 2> = Kernel::new();
    assert_eq!(kernel.create(0, 99, TASK0_STACK), false);
    assert_eq!(kernel.create(1, 100, TASK1_STACK), false);
    assert_eq!(kernel.curr_task_id(), None);
    assert_eq!(kernel.next_task_id(), None);
    assert_eq!(kernel.start(), TASK0_STACK);
    assert_eq!(kernel.get_current_task(), 0);
}

#[test]
fn start_picks_smallest_priority_number() {
    let mut kernel: Kernel<u32, 3> = Kernel::new();
    kernel.create(7, 50, 0x700);
    kernel.create(3, 10, 0x300);
    kernel.create(usize::MAX, usize::MAX, 0xF00);
    assert_eq!(kernel.start(), 0x300);
    assert_eq!(kernel.get_current_task(), 3);
    assert_eq!(kernel.next_task_id(), None);
}

#[test]
fn start_skips_suspended_task() {
    let mut kernel: Kernel<u32, 2> = Kernel::new();
    kernel.create(0, 99, TASK0_STACK);
    kernel.create(1, 100, TASK1_STACK);
    assert_eq!(kernel.suspend(Some(0)), false);
    assert_eq!(kernel.start(), TASK1_STACK);
    assert_eq!(kernel.get_current_task(), 1);
}

#[test]
fn create_after_start_preempts_when_more_urgent() {
    let mut kernel: Kernel<u32, 3> = Kernel::new();
    kernel.create(0, 99, TASK0_STACK);
    kernel.start();
    assert_eq!(kernel.create(5, 100, 0x500), false);
    assert_eq!(kernel.next_task_id(), None);
    assert_eq!(kernel.create(6, 1, 0x600), true);
    assert_eq!(kernel.next_task_id(), Some(6));
    assert_eq!(kernel.handle_context_switch(Some(0x1234)), 0x600);
    assert_eq!(kernel.get_current_task(), 6);
}

#[test]
fn switch_saves_outgoing_stack_pointer() {
    let mut kernel = setup();
    assert_eq!(kernel.suspend(None), true);
    assert_eq!(kernel.handle_context_switch(Some(0x2000_00C0)), TASK1_STACK);
    assert_eq!(kernel.resume(0), true);
    assert_eq!(kernel.handle_context_switch(Some(0x2000_01F0)), 0x2000_00C0);
    assert_eq!(kernel.get_current_task(), 0);
    assert_eq!(kernel.suspend(None), true);
    assert_eq!(kernel.handle_context_switch(None), 0x2000_01F0);
}

#[test]
fn tick_counter_never_decreases() {
    let mut kernel = setup();
    let mut last = kernel.get_current_tick();
    for elapsed in [0u64, 1, 5, 0, 2] {
        kernel.tick_update(elapsed);
        let now = kernel.get_current_tick();
        assert!(now >= last);
        assert_eq!(now, last + elapsed);
        last = now;
    }
    assert_eq!(last, 8);
}

#[test]
fn tick_before_start_switches_nothing() {
    let mut kernel: Kernel<u32, 2> = Kernel::new();
    kernel.create(0, 99, TASK0_STACK);
    assert_eq!(kernel.tick_update(4), false);
    assert_eq!(kernel.get_current_tick(), 4);
    assert_eq!(kernel.next_task_id(), None);
}

#[test]
fn sleeper_waits_for_its_wake_tick() {
    let mut kernel = setup();
    assert_eq!(kernel.tick_update(10), false);
    assert_eq!(kernel.sleep(3), true);
    let _ = kernel.handle_context_switch(None);
    assert_eq!(kernel.tick_update(1), false);
    assert_eq!(kernel.next_task_id(), None);
    assert_eq!(kernel.tick_update(1), false);
    assert_eq!(kernel.next_task_id(), None);
    assert_eq!(kernel.tick_update(1), true);
    assert_eq!(kernel.get_current_tick(), 13);
    assert_eq!(kernel.next_task_id(), Some(0));
}

#[test]
fn sleep_zero_is_a_yield_that_keeps_the_cpu() {
    let mut kernel = setup();
    assert_eq!(kernel.sleep(0), false);
    assert_eq!(kernel.curr_task_id(), Some(0));
    assert_eq!(kernel.next_task_id(), None);
}

#[test]
fn resume_cancels_sleep() {
    let mut kernel = setup();
    assert_eq!(kernel.sleep(100), true);
    let _ = kernel.handle_context_switch(None);
    assert_eq!(kernel.resume(0), true);
    assert_eq!(kernel.next_task_id(), Some(0));
    assert_eq!(kernel.tick_update(1), true);
    assert_eq!(kernel.next_task_id(), Some(0));
}

#[test]
fn suspend_then_resume_round_trip() {
    let mut kernel = setup();
    assert_eq!(kernel.suspend(Some(1)), false);
    assert_eq!(kernel.resume(1), false);
    assert_eq!(kernel.next_task_id(), None);
    // the resumed task runs once the current one blocks
    assert_eq!(kernel.suspend(None), true);
    assert_eq!(kernel.next_task_id(), Some(1));
}

#[test]
fn resume_twice_is_idempotent() {
    let mut kernel = setup();
    let _ = kernel.suspend(None);
    let _ = kernel.handle_context_switch(None);
    assert_eq!(kernel.resume(0), true);
    assert_eq!(kernel.next_task_id(), Some(0));
    assert_eq!(kernel.resume(0), true);
    assert_eq!(kernel.next_task_id(), Some(0));
    assert_eq!(kernel.curr_task_id(), Some(1));
}

#[test]
fn suspended_task_ignores_ticks() {
    let mut kernel = setup();
    assert_eq!(kernel.suspend(None), true);
    let _ = kernel.handle_context_switch(None);
    assert_eq!(kernel.tick_update(1000), false);
    assert_eq!(kernel.next_task_id(), None);
    assert_eq!(kernel.get_current_task(), 1);
}

#[test]
fn delete_current_then_switch_skips_save() {
    let mut kernel = setup();
    assert_eq!(kernel.delete(None), true);
    assert_eq!(kernel.handle_context_switch(Some(0xDEAD)), TASK1_STACK);
    assert_eq!(kernel.curr_task_id(), Some(1));
    assert_eq!(kernel.next_task_id(), None);
}

#[test]
fn delete_while_current_is_gone_by_id() {
    let mut kernel: Kernel<u32, 3> = Kernel::new();
    kernel.create(0, 99, TASK0_STACK);
    kernel.create(1, 100, TASK1_STACK);
    kernel.create(2, 101, 0x2000_0300);
    kernel.start();
    assert_eq!(kernel.delete(None), true);
    assert_eq!(kernel.next_task_id(), Some(1));
    assert_eq!(kernel.delete(Some(1)), true);
    assert_eq!(kernel.curr_task_id(), None);
    assert_eq!(kernel.next_task_id(), Some(2));
    assert_eq!(kernel.handle_context_switch(None), 0x2000_0300);
}

#[test]
fn no_runnable_task_means_no_switch() {
    let mut kernel = setup();
    assert_eq!(kernel.suspend(Some(1)), false);
    assert_eq!(kernel.suspend(None), false);
    assert_eq!(kernel.next_task_id(), None);
    assert_eq!(kernel.curr_task_id(), Some(0));
}

#[test]
fn fills_to_capacity() {
    let mut kernel: Kernel<u64, 4> = Kernel::new();
    for i in 0..4usize {
        assert_eq!(kernel.create(i, 10 - i, 100 * i as u64), false);
    }
    assert_eq!(kernel.start(), 300);
    assert_eq!(kernel.get_current_task(), 3);
}

#[test]
fn task_runnable_states() {
    let mut t = Task {
        id: 4,
        priority: 8,
        stack_ptr: 0u32,
        state: TaskState::Ready,
        pend: TaskPendReason::NotPending,
    };
    assert!(t.is_runnable());
    t.state = TaskState::Running;
    assert!(t.is_runnable());
    t.state = TaskState::Pending;
    t.pend = TaskPendReason::Sleep(9);
    assert!(!t.is_runnable());
    t.pend = TaskPendReason::Suspended;
    assert!(!t.is_runnable());
}

#[test]
fn queries_follow_the_task_list() {
    let mut kernel: Kernel<u32, 3> = Kernel::new();
    assert!(!kernel.is_running());
    assert_eq!(kernel.task_count(), 0);
    assert!(!kernel.has_runnable_task());
    kernel.create(4, 40, 0x400);
    kernel.create(9, 90, 0x900);
    assert_eq!(kernel.task_count(), 2);
    assert!(kernel.contains_task(4));
    assert!(kernel.contains_task(9));
    assert!(!kernel.contains_task(5));
    assert!(kernel.priority_in_use(90));
    assert!(!kernel.priority_in_use(4));
    kernel.suspend(Some(4));
    kernel.suspend(Some(9));
    assert!(!kernel.has_runnable_task());
    kernel.resume(9);
    assert!(kernel.has_runnable_task());
    assert_eq!(kernel.start(), 0x900);
    assert!(kernel.is_running());
    assert_eq!(kernel.delete(Some(4)), false);
    assert!(!kernel.contains_task(4));
    assert_eq!(kernel.task_count(), 1);
}

#[test]
fn only_the_current_task_runs() {
    let mut kernel = setup();
    assert_eq!(kernel.task_status(0), Some((TaskState::Running, TaskPendReason::NotPending)));
    assert_eq!(kernel.task_status(1), Some((TaskState::Ready, TaskPendReason::NotPending)));
    assert_eq!(kernel.sleep(2), true);
    assert_eq!(kernel.task_status(1), Some((TaskState::Ready, TaskPendReason::NotPending)));
    let _ = kernel.handle_context_switch(None);
    assert_eq!(kernel.task_status(0), Some((TaskState::Pending, TaskPendReason::Sleep(2))));
    assert_eq!(kernel.task_status(1), Some((TaskState::Running, TaskPendReason::NotPending)));
    assert_eq!(kernel.get_current_task(), 1);
    assert_eq!(kernel.tick_update(2), true);
    assert_eq!(kernel.task_status(0), Some((TaskState::Ready, TaskPendReason::NotPending)));
    let _ = kernel.handle_context_switch(None);
    assert_eq!(kernel.task_status(0), Some((TaskState::Running, TaskPendReason::NotPending)));
    assert_eq!(kernel.task_status(1), Some((TaskState::Ready, TaskPendReason::NotPending)));
    assert_eq!(kernel.task_status(7), None);
}

#[test]
fn pend_reason_matches_state() {
    let mut kernel: Kernel<u32, 3> = Kernel::new();
    kernel.create(0, 10, 0x100);
    kernel.create(1, 20, 0x200);
    kernel.create(2, 30, 0x300);
    kernel.start();
    kernel.suspend(Some(2));
    kernel.sleep(5);
    for id in 0..3usize {
        let (state, pend) = kernel.task_status(id).unwrap();
        assert_eq!(state == TaskState::Pending, pend != TaskPendReason::NotPending);
    }
    assert_eq!(kernel.task_status(0), Some((TaskState::Pending, TaskPendReason::Sleep(5))));
    assert_eq!(kernel.task_status(2), Some((TaskState::Pending, TaskPendReason::Suspended)));
}

#[test]
fn priorities_stay_distinct() {
    let mut kernel: Kernel<u32, 3> = Kernel::new();
    kernel.create(0, 10, 0x100);
    kernel.create(1, 20, 0x200);
    assert!(kernel.priority_in_use(10));
    assert!(!kernel.priority_in_use(15));
    kernel.create(2, 15, 0x300);
    kernel.start();
    assert_eq!(kernel.delete(Some(0)), true);
    assert!(!kernel.priority_in_use(10));
    assert_eq!(kernel.next_task_id(), Some(2));
}

#[test]
fn suspend_resume_restores_ready() {
    let mut kernel = setup();
    kernel.suspend(Some(1));
    assert_eq!(kernel.task_status(1), Some((TaskState::Pending, TaskPendReason::Suspended)));
    kernel.resume(1);
    assert_eq!(kernel.task_status(1), Some((TaskState::Ready, TaskPendReason::NotPending)));
    kernel.resume(1);
    assert_eq!(kernel.task_status(1), Some((TaskState::Ready, TaskPendReason::NotPending)));
    assert_eq!(kernel.next_task_id(), None);
}

#[test]
fn suspend_overrides_sleep() {
    let mut kernel = setup();
    assert_eq!(kernel.sleep(1), true);
    assert_eq!(kernel.suspend(Some(0)), true);
    let _ = kernel.handle_context_switch(None);
    assert_eq!(kernel.tick_update(5), false);
    assert_eq!(kernel.task_status(0), Some((TaskState::Pending, TaskPendReason::Suspended)));
}

#[test]
fn tasks_compare_by_priority() {
    let a = Task { id: 1, priority: 5, stack_ptr: 0u32, state: TaskState::Ready, pend: TaskPendReason::NotPending };
    let b = Task { id: 2, priority: 9, stack_ptr: 4u32, state: TaskState::Pending, pend: TaskPendReason::Suspended };
    let c = Task { id: 3, priority: 5, stack_ptr: 8u32, state: TaskState::Running, pend: TaskPendReason::NotPending };
    assert!(a < b);
    assert!(!(b < a));
    assert!(a == c);
    assert!(a != b);
    assert_eq!(a.partial_cmp(&b), Some(std::cmp::Ordering::Less));
    assert_eq!(b.partial_cmp(&a), Some(std::cmp::Ordering::Greater));
    assert_eq!(a.partial_cmp(&c), Some(std::cmp::Ordering::Equal));
}
