use enos::task::{KillTaskResult, Task, TaskId, TaskManager, TaskPrivilege, TaskState};

fn manager_with_background() -> TaskManager {
    let mut tm = TaskManager::new();
    tm.register_named_task("background_thread", 0x10000);
    tm
}

#[test]
fn initial_frame_layout() {
    let frame = Task::initial_frame(0x08, 0x0010_2000);
    assert_eq!(frame, vec![0, 0, 0, 0, 0, 0, 0, 0, 0x0010_2000, 0x08, 0x202]);
    let t = Task::new(TaskId(7), "t", TaskPrivilege::Kernel, 0x2000);
    assert_eq!(t.stack_ptr, 0x2000 - 44);
    assert_eq!(t.run_ticks, 0);
    assert_eq!(t.state, TaskState::Ready);
}

#[test]
fn labels() {
    assert_eq!(TaskPrivilege::Kernel.label(), "kernel");
    assert_eq!(TaskPrivilege::User.label(), "user");
    let t = Task::placeholder_main(0x1234);
    assert_eq!(t.id, TaskId(1));
    assert_eq!(t.name, "user_main");
    assert_eq!(t.state_label(true), "running");
    assert_eq!(t.state_label(false), "ready");
    let sleeping = Task { state: TaskState::Sleeping { wake_at: 5 }, ..t };
    assert_eq!(sleeping.state_label(true), "sleep");
    let dead = Task { state: TaskState::Terminated, ..t };
    assert_eq!(dead.state_label(false), "dead");
    assert!(TaskState::Ready.is_ready());
    assert!(!TaskState::Terminated.is_ready());
    assert_eq!(TaskId(9).as_usize(), 9);
}

#[test]
fn tick_without_tasks_returns_same_stack() {
    let mut tm = TaskManager::new();
    assert_eq!(tm.schedule_next(0x7777), 0x7777);
    let st = tm.stats();
    assert_eq!(st.total_ticks, 1);
    assert_eq!(st.total_tasks, 2);
    assert_eq!(st.current_task_id, 0);
}

#[test]
fn round_robin_between_user_and_kernel() {
    let mut tm = manager_with_background();
    // the first tick puts the interrupted user thread in the list and
    // switches to the background task
    assert_eq!(tm.schedule_next(0x5000), 0x10000 - 44);
    let st = tm.stats();
    assert_eq!(st.total_ticks, 1);
    assert_eq!(st.total_tasks, 3);
    assert_eq!(st.current_task_id, 2);
    // the next tick goes back to the user thread
    assert_eq!(tm.schedule_next(0xFF00), 0x5000);
    assert_eq!(tm.stats().current_task_id, 1);
    // and again to the background task, resuming where it was interrupted
    assert_eq!(tm.schedule_next(0x5100), 0xFF00);
}

#[test]
fn sleeping_task_waits_for_its_tick() {
    let mut tm = manager_with_background();
    tm.schedule_next(0x5000); // tick 1: bg runs
    tm.schedule_next(0xFF00); // tick 2: user runs
    assert!(tm.sleep_current_task(0x4F00, 5)); // wake at tick 7
    // tick 3 interrupts the sleeping thread and runs the background task
    assert_eq!(tm.schedule_next(0x4F00), 0xFF00);
    for _ in 4..7 {
        // ticks 4..=6: only the background task may run
        assert_eq!(tm.schedule_next(0xFE00), 0xFE00);
    }
    // tick 7 wakes the user thread, which resumes at its saved stack
    assert_eq!(tm.schedule_next(0xFE00), 0x4F00);
}

#[test]
fn zero_tick_sleep_lasts_one_tick() {
    let mut tm = manager_with_background();
    tm.schedule_next(0x5000);
    tm.schedule_next(0xFF00);
    assert!(tm.sleep_current_task(0x4F00, 0)); // wake at tick 3
    assert_eq!(tm.schedule_next(0x4F00), 0xFF00); // tick 3: woken, but bg is next
    assert_eq!(tm.schedule_next(0xFF10), 0x4F00);
}

#[test]
fn sleep_refused_outside_user_context() {
    let mut empty = TaskManager::new();
    assert!(!empty.sleep_current_task(0x1000, 3));
    let mut tm = manager_with_background();
    tm.schedule_next(0x5000); // bg is current
    assert!(!tm.sleep_current_task(0xFF00, 3));
}

#[test]
fn kill_errors() {
    let mut tm = manager_with_background();
    assert_eq!(tm.kill_task_by_pid(0), Err("cannot kill kernel task"));
    assert_eq!(tm.kill_task_by_pid(2), Err("cannot kill kernel task"));
    assert_eq!(tm.kill_task_by_pid(42), Err("pid not found"));
    // before the first tick the user thread is not listed yet
    assert_eq!(tm.kill_task_by_pid(1), Err("pid not found"));
}

#[test]
fn kill_other_task_removes_it_now() {
    let mut tm = manager_with_background();
    tm.schedule_next(0x5000); // bg current, user listed
    assert_eq!(tm.kill_task_by_pid(1), Ok(KillTaskResult::KilledNow));
    let ps = tm.process_snapshot();
    assert!(ps.iter().all(|p| p.id != 1));
    assert_eq!(tm.stats().current_task_id, 2);
    assert_eq!(tm.schedule_next(0xFF00), 0xFF00);
}

#[test]
fn kill_running_task_takes_effect_at_next_tick() {
    let mut tm = manager_with_background();
    tm.schedule_next(0x5000);
    tm.schedule_next(0xFF00); // user current
    assert_eq!(tm.kill_task_by_pid(1), Ok(KillTaskResult::MarkedForTermination));
    assert!(tm.process_snapshot().iter().any(|p| p.id == 1 && p.state == "dead"));
    assert_eq!(tm.schedule_next(0x4000), 0xFF00);
    assert!(tm.process_snapshot().iter().all(|p| p.id != 1));
}

#[test]
fn user_fault_terminates_and_switches() {
    let mut tm = manager_with_background();
    tm.schedule_next(0x5000);
    tm.schedule_next(0xFF00); // user current
    assert_eq!(tm.terminate_current_user_task_from_fault(0x4444), 0xFF00);
    assert_eq!(tm.stats().total_tasks, 2);
    assert_eq!(tm.stats().current_task_id, 2);
}

#[test]
fn user_fault_before_first_tick() {
    let mut tm = manager_with_background();
    // the faulting thread is the initial user thread, not yet listed
    assert_eq!(tm.terminate_current_user_task_from_fault(0x4444), 0x10000 - 44);
    let ps = tm.process_snapshot();
    assert_eq!(ps.len(), 2);
    assert_eq!(ps[1].id, 2);
    assert_eq!(ps[1].state, "running");
}

#[test]
fn snapshot_before_and_after_tracking() {
    let mut tm = manager_with_background();
    let ps = tm.process_snapshot();
    assert_eq!(ps.len(), 3);
    assert_eq!((ps[0].id, ps[0].name, ps[0].state, ps[0].privilege), (0, "kernel_idle", "idle", "kernel"));
    assert_eq!((ps[1].id, ps[1].name, ps[1].state, ps[1].privilege), (1, "user_main", "running", "user"));
    assert_eq!((ps[2].id, ps[2].name, ps[2].state, ps[2].privilege), (2, "background_thread", "ready", "kernel"));
    tm.schedule_next(0x5000);
    let ps = tm.process_snapshot();
    assert_eq!(ps.len(), 3);
    assert_eq!((ps[1].id, ps[1].state, ps[1].run_ticks), (1, "ready", 1));
    assert_eq!((ps[2].id, ps[2].state), (2, "running"));
    // the task count of the statistics matches the process list
    assert_eq!(tm.stats().total_tasks, ps.len());
}

#[test]
fn ids_increase_per_registration() {
    let mut tm = TaskManager::new();
    tm.register_named_task("a", 0x1000);
    tm.register_named_task("b", 0x2000);
    let ps = tm.process_snapshot();
    assert_eq!(ps[2].id, 2);
    assert_eq!(ps[3].id, 3);
    assert_eq!(tm.next_ready_after(0), Some(1));
    assert_eq!(tm.first_ready_index(), Some(0));
}
