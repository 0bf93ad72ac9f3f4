use atom_kernel::context::{Context, TaskState};
use atom_kernel::salience_scheduler::{GoalTemplate, SalienceScheduler};
use atom_kernel::scheduler::Scheduler;
use atom_kernel::syscall::{KernelState, SYS_EXIT, SYS_PRINT, SYS_YIELD};
use atom_kernel::system::{SwitchTarget, System};
use atom_kernel::trap::TrapFrame;

fn task(id: usize, rsp: u64) -> Context {
    Context::new(id, rsp, 0x10000 * (id as u64 + 1), 0x1000 * (id as u64 + 1))
}

#[test]
fn context_new_and_set_state() {
    let mut c = task(3, 0x500);
    assert_eq!((c.id, c.rsp, c.kernel_stack, c.page_table_root), (3, 0x500, 0x40000, 0x4000));
    assert_eq!(c.state, TaskState::Ready);
    assert!(c.open_files.iter().all(|f| *f == (0, 0)));
    assert!(c.saved_state.is_none());
    c.set_state(TaskState::Blocked);
    assert_eq!(c.state, TaskState::Blocked);
    assert_eq!(c.rsp, 0x500);
}

#[test]
fn scheduler_spawn_fills_lowest_slot() {
    let mut s = Scheduler::new();
    assert!(s.current_task().is_none());
    for i in 0..16 {
        assert_eq!(s.spawn(task(i, 0x100 * i as u64)), Ok(()));
    }
    assert_eq!(s.spawn(task(99, 0)), Err(()));
    assert_eq!(s.current_task().unwrap().id, 0);
}

#[test]
fn scheduler_round_robin() {
    let mut s = Scheduler::new();
    s.spawn(task(1, 0x1000)).unwrap();
    s.spawn(task(2, 0x2000)).unwrap();
    // First dispatch from the idle stack: slot 1 is next after slot 0.
    assert_eq!(s.switch_context(0xAAAA), 0x2000);
    assert_eq!(s.current_task().unwrap().id, 2);
    assert_eq!(s.current_task().unwrap().state, TaskState::Running);
    // Task 2 is preempted at 0x2100; task 1 runs.
    assert_eq!(s.switch_context(0x2100), 0x1000);
    assert_eq!(s.current_task().unwrap().id, 1);
    // And back to task 2 at its saved stack pointer.
    assert_eq!(s.switch_context(0x1100), 0x2100);
}

#[test]
fn scheduler_alone_keeps_running() {
    let mut s = Scheduler::new();
    s.spawn(task(1, 0x1000)).unwrap();
    assert_eq!(s.switch_context(0xAAAA), 0x1000);
    assert_eq!(s.switch_context(0x1234), 0x1234);
    assert_eq!(s.current_task().unwrap().rsp, 0x1000);
    assert_eq!(s.current_task().unwrap().state, TaskState::Running);
}

#[test]
fn scheduler_nothing_ready_keeps_stack() {
    let mut s = Scheduler::new();
    assert_eq!(s.switch_context(0x42), 0x42);
    let mut t = task(1, 0x1000);
    t.set_state(TaskState::Blocked);
    s.spawn(t).unwrap();
    assert_eq!(s.switch_context(0x43), 0x43);
}

#[test]
fn scheduler_round_robin_visits_every_task() {
    let mut s = Scheduler::new();
    for i in 0..5 {
        s.spawn(task(i, 0x1000 * (i as u64 + 1))).unwrap();
    }
    let mut seen = Vec::new();
    for step in 0..10u64 {
        s.switch_context(0x9000 + step);
        let cur = s.current_task().unwrap();
        assert_eq!(cur.state, TaskState::Running);
        seen.push(cur.id);
    }
    // Round robin over the five tasks, starting after slot 0.
    assert_eq!(seen, vec![1, 2, 3, 4, 0, 1, 2, 3, 4, 0]);
    if let Some(t) = s.current_task_mut() {
        t.set_state(TaskState::Terminated);
    }
    assert_eq!(s.current_task().unwrap().state, TaskState::Terminated);
}

#[test]
fn salience_picks_longest_waiting() {
    let mut s = SalienceScheduler::new();
    s.spawn(task(0, 0x1000)).unwrap();
    s.spawn(task(1, 0x2000)).unwrap();
    s.spawn(task(2, 0x3000)).unwrap();
    // Nothing has waited yet: every score is zero, the first candidate wins.
    assert_eq!(s.switch_context(0x77), 0x2000);
    assert_eq!(s.current_task().unwrap().id, 1);
    s.tick();
    // Slots 0 and 2 waited one tick each; the earlier one wins a tie.
    assert_eq!(s.switch_context(0x2100), 0x1000);
    assert_eq!(s.current_task().unwrap().id, 0);
    s.tick();
    s.tick();
    // Slot 2 waited 3 ticks, slot 1 waited 2.
    assert_eq!(s.switch_context(0x1100), 0x3000);
    assert_eq!(s.current_task().unwrap().id, 2);
    // Slot 1 kept the stack pointer it was switched away with.
    s.tick();
    assert_eq!(s.switch_context(0x3100), 0x2100);
}

#[test]
fn salience_switch_without_ticks_runs_a_task() {
    let mut s = SalienceScheduler::new();
    s.spawn(Context::new(1, 0, 0, 0)).unwrap();
    s.spawn(Context::new(2, 0, 0, 0)).unwrap();
    s.spawn(Context::new(3, 0, 0, 0)).unwrap();
    s.switch_context(0);
    assert_eq!(s.current_task().unwrap().state, TaskState::Running);
    assert_eq!(s.current_task().unwrap().id, 2);
}

#[test]
fn salience_alone_keeps_running() {
    let mut s = SalienceScheduler::new();
    s.spawn(task(0, 0x1000)).unwrap();
    assert_eq!(s.switch_context(0x55), 0x55);
    assert_eq!(s.current_task().unwrap().id, 0);
}

#[test]
fn salience_goal_boosts() {
    let mut s = SalienceScheduler::new();
    s.spawn(task(0, 0x1000)).unwrap();
    s.spawn(task(1, 0x2000)).unwrap();
    s.spawn(task(2, 0x3000)).unwrap();
    s.tick();
    s.mark_lock_contention(2, true);
    s.set_goal_template(GoalTemplate::LockContention);
    assert_eq!(s.switch_context(0x99), 0x3000);

    let mut s = SalienceScheduler::new();
    s.spawn(task(0, 0x1000)).unwrap();
    s.spawn(task(1, 0x2000)).unwrap();
    s.spawn(task(2, 0x3000)).unwrap();
    s.tick();
    s.mark_io_ready(2, true);
    s.set_goal_template(GoalTemplate::IoBound);
    assert_eq!(s.switch_context(0x99), 0x3000);
    // Out-of-range marks are ignored.
    s.mark_io_ready(40, true);
    s.mark_lock_contention(40, true);
}

#[test]
fn system_timer_reports_switch_target() {
    let mut sys = System::new();
    sys.scheduler.spawn(task(1, 0x1000)).unwrap();
    sys.scheduler.spawn(task(2, 0x2000)).unwrap();
    let (rsp, target) = sys.on_timer(0xAAAA);
    assert_eq!(rsp, 0x2000);
    assert_eq!(target, Some(SwitchTarget { page_table_root: 0x3000, kernel_stack: 0x30000 }));
    assert_eq!(sys.schedule_tick(0x2100), 0x1000);
    let (rsp, target) = sys.on_timer(0x1100);
    assert_eq!(rsp, 0x2100);
    assert_eq!(target, Some(SwitchTarget { page_table_root: 0x3000, kernel_stack: 0x30000 }));
}

#[test]
fn system_timer_without_switch_has_no_target() {
    let mut sys = System::new();
    let (rsp, target) = sys.on_timer(0x55);
    assert_eq!((rsp, target), (0x55, None));
}

#[test]
fn system_syscall_yield_switches_only_on_fast_path() {
    for fast in [true, false] {
        let mut sys = System::new();
        sys.scheduler.spawn(task(1, 0x1000)).unwrap();
        sys.scheduler.spawn(task(2, 0x2000)).unwrap();
        // Slot 0 (task 1) is current and ready.
        let mut k = KernelState::new();
        let mut f = TrapFrame::empty();
        f.rax = SYS_YIELD;
        let (rsp, target, effects) = sys.on_syscall(0x1800, &mut f, &mut k, &[], fast);
        assert_eq!(f.rax, 0);
        assert!(effects.is_empty());
        if fast {
            assert_eq!(rsp, 0x2000);
            assert_eq!(target, Some(SwitchTarget { page_table_root: 0x3000, kernel_stack: 0x30000 }));
        } else {
            assert_eq!(rsp, 0x1800);
            assert_eq!(target, None);
        }
        // Either way the scheduler moved on to task 2.
        assert_eq!(sys.scheduler.current_task().unwrap().id, 2);
    }
}

#[test]
fn system_syscall_exit_terminates_and_print_stays() {
    let mut sys = System::new();
    sys.scheduler.spawn(task(1, 0x1000)).unwrap();
    sys.scheduler.spawn(task(2, 0x2000)).unwrap();
    let mut k = KernelState::new();
    let mut f = TrapFrame::empty();
    f.rax = SYS_PRINT;
    f.rdi = b'!' as u64;
    let (rsp, target, effects) = sys.on_syscall(0x1800, &mut f, &mut k, &[], true);
    assert_eq!((rsp, target, effects.len(), f.rax), (0x1800, None, 1, 0));
    assert_eq!(sys.scheduler.current_task().unwrap().id, 1);
    f.rax = SYS_EXIT;
    let (rsp, _, _) = sys.on_syscall(0x1800, &mut f, &mut k, &[], true);
    assert_eq!(rsp, 0x2000);
    assert_eq!(sys.scheduler.current_task().unwrap().id, 2);
    // The exited task is never picked again.
    assert_eq!(sys.on_timer(0x2200).0, 0x2200);
}

#[test]
fn system_syscall_without_task_does_nothing() {
    let mut sys = System::new();
    let mut k = KernelState::new();
    let mut f = TrapFrame::empty();
    f.rax = SYS_YIELD;
    let (rsp, target, effects) = sys.on_syscall(0x10, &mut f, &mut k, &[], true);
    assert_eq!((rsp, target, effects.len()), (0x10, None, 0));
    assert_eq!(f.rax, SYS_YIELD);
}
