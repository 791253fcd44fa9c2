use vstd::prelude::*;

verus! {

/// Size in bytes of the stack that each kernel task owns.
pub const STACK_SIZE: usize = 8192;

/// Number of 32-bit words in a fresh task's initial stack frame: the
/// interrupt frame (EFLAGS, CS, EIP) below the eight `pushad` registers.
pub const INITIAL_FRAME_WORDS: usize = 11;

/// Bound on the length of the task list, far above what the kernel's memory
/// could hold; it keeps the scheduler's index arithmetic free of overflow.
pub const MAX_TASKS: usize = 0x3FFF_FFFF;

/// EFLAGS value a fresh kernel task starts with (interrupts enabled).
pub const INITIAL_EFLAGS: u32 = 0x202;

/// Identifier of a task, as shown by `ps` and accepted by `kill`.
#[derive(Debug, Clone, Copy, PartialEq, Eq, Structural)]
pub struct TaskId(pub usize);

impl TaskId {
    pub fn as_usize(self) -> (r: usize)
        ensures
            r == self.0,
    {
        self.0
    }
}

/// The ring a task runs in.
#[derive(Debug, Clone, Copy, PartialEq, Eq, Structural)]
pub enum TaskPrivilege {
    Kernel,
    User,
}

impl TaskPrivilege {
    pub open spec fn label_spec(self) -> &'static str {
        match self {
            TaskPrivilege::Kernel => "kernel",
            TaskPrivilege::User => "user",
        }
    }

    pub fn label(self) -> (r: &'static str)
        ensures
            r == self.label_spec(),
    {
        match self {
            TaskPrivilege::Kernel => "kernel",
            TaskPrivilege::User => "user",
        }
    }
}

/// Scheduling state of a task.
#[derive(Debug, Clone, Copy, PartialEq, Eq, Structural)]
pub enum TaskState {
    Ready,
    Sleeping { wake_at: u64 },
    Terminated,
}

impl TaskState {
    pub fn is_ready(self) -> (r: bool)
        ensures
            r == (self is Ready),
    {
        match self {
            TaskState::Ready => true,
            _ => false,
        }
    }
}

/// One schedulable task. Its stack memory is owned by whoever created the
/// task; the task records only the saved stack pointer.
#[derive(Debug, Clone, Copy)]
pub struct Task {
    pub id: TaskId,
    pub name: &'static str,
    pub privilege: TaskPrivilege,
    pub state: TaskState,
    pub stack_ptr: u32,
    pub run_ticks: u64,
}

/// The words of a fresh kernel task's initial stack frame, lowest address
/// first: the eight `pushad` registers (all zero), then EIP, CS and EFLAGS,
/// as the timer interrupt path pops them.
pub open spec fn initial_frame_spec(cs: u32, entry_point: u32) -> Seq<u32> {
    seq![0u32, 0u32, 0u32, 0u32, 0u32, 0u32, 0u32, 0u32, entry_point, cs, INITIAL_EFLAGS]
}

impl Task {
    /// The frame that `Task::new` expects to find below `stack_top`.
    pub fn initial_frame(cs: u32, entry_point: u32) -> (frame: Vec<u32>)
        ensures
            frame@ == initial_frame_spec(cs, entry_point),
    {
        let mut frame: Vec<u32> = Vec::new();
        let mut i: usize = 0;
        while i < 8
            invariant
                i <= 8,
                frame@.len() == i,
                forall|j: int| 0 <= j < i ==> frame@[j] == 0u32,
            decreases 8 - i,
        {
            frame.push(0u32);
            i += 1;
        }
        frame.push(entry_point);
        frame.push(cs);
        frame.push(INITIAL_EFLAGS);
        assert(frame@ =~= initial_frame_spec(cs, entry_point));
        frame
    }

    /// A ready task whose saved stack pointer sits below the initial frame
    /// (see `initial_frame`) that was written under `stack_top`.
    pub fn new(id: TaskId, name: &'static str, privilege: TaskPrivilege, stack_top: u32) -> (task:
        Task)
        requires
            stack_top >= 4 * INITIAL_FRAME_WORDS,
        ensures
            task == (Task {
                id,
                name,
                privilege,
                state: TaskState::Ready,
                stack_ptr: (stack_top - 4 * INITIAL_FRAME_WORDS) as u32,
                run_ticks: 0,
            }),
    {
        Task {
            id,
            name,
            privilege,
            state: TaskState::Ready,
            stack_ptr: stack_top - 44,
            run_ticks: 0,
        }
    }

    /// The task that stands for the initial user thread once the scheduler
    /// first sees it.
    pub fn placeholder_main(stack_ptr: u32) -> (task: Task)
        ensures
            task == placeholder_spec(stack_ptr),
    {
        Task {
            id: TaskId(1),
            name: "user_main",
            privilege: TaskPrivilege::User,
            state: TaskState::Ready,
            stack_ptr,
            run_ticks: 0,
        }
    }

    pub open spec fn state_label_spec(self, is_current: bool) -> &'static str {
        match self.state {
            TaskState::Ready => if is_current {
                "running"
            } else {
                "ready"
            },
            TaskState::Sleeping { .. } => "sleep",
            TaskState::Terminated => "dead",
        }
    }

    pub fn state_label(&self, is_current: bool) -> (r: &'static str)
        ensures
            r == self.state_label_spec(is_current),
    {
        match self.state {
            TaskState::Ready => {
                if is_current {
                    "running"
                } else {
                    "ready"
                }
            },
            TaskState::Sleeping { .. } => "sleep",
            TaskState::Terminated => "dead",
        }
    }
}

pub open spec fn placeholder_spec(stack_ptr: u32) -> Task {
    Task {
        id: TaskId(1),
        name: "user_main",
        privilege: TaskPrivilege::User,
        state: TaskState::Ready,
        stack_ptr,
        run_ticks: 0,
    }
}


/// Scheduler-wide counters, as `uptime` and `tasks` report them.
#[derive(Debug, Clone, Copy)]
pub struct SchedulerStats {
    pub total_ticks: u64,
    pub total_tasks: usize,
    pub current_task_id: usize,
}

/// One line of the process list.
#[derive(Debug, Clone, Copy)]
pub struct ProcessSnapshot {
    pub id: usize,
    pub name: &'static str,
    pub state: &'static str,
    pub privilege: &'static str,
    pub run_ticks: u64,
}

/// How a successful `kill` took effect.
#[derive(Debug, Clone, Copy, PartialEq, Eq, Structural)]
pub enum KillTaskResult {
    /// The task was removed at once.
    KilledNow,
    /// The task is running right now; it is removed at the next timer tick.
    MarkedForTermination,
}

/// The round-robin scheduler's state.
///
/// Task 0 is the virtual idle task and is never stored; task 1 is the initial
/// user thread, which enters the list the first time the scheduler runs.
pub struct TaskManager {
    tasks: Vec<Task>,
    current_task_idx: usize,
    next_task_id: usize,
    tick_count: u64,
    main_task_tracked: bool,
}

/// Abstract state of a `TaskManager`.
#[verifier::ext_equal]
pub ghost struct SchedulerModel {
    pub tasks: Seq<Task>,
    pub current: int,
    pub next_id: int,
    pub ticks: u64,
    pub main_tracked: bool,
}

impl View for TaskManager {
    type V = SchedulerModel;

    closed spec fn view(&self) -> SchedulerModel {
        SchedulerModel {
            tasks: self.tasks@,
            current: self.current_task_idx as int,
            next_id: self.next_task_id as int,
            ticks: self.tick_count,
            main_tracked: self.main_task_tracked,
        }
    }
}

pub open spec fn is_kernel(t: Task) -> bool {
    t.privilege == TaskPrivilege::Kernel
}

pub open spec fn is_user(t: Task) -> bool {
    t.privilege == TaskPrivilege::User
}

pub open spec fn is_terminated(t: Task) -> bool {
    t.state is Terminated
}

pub open spec fn is_ready_task(t: Task) -> bool {
    t.state is Ready
}

/// Task ids are pairwise distinct.
pub open spec fn ids_distinct(tasks: Seq<Task>) -> bool {
    forall|i: int, j: int|
        0 <= i < tasks.len() && 0 <= j < tasks.len() && i != j ==> #[trigger] tasks[i].id
            != #[trigger] tasks[j].id
}

/// What every well-formed task list satisfies, given the next free id.
pub open spec fn tasks_ok(tasks: Seq<Task>, next_id: int) -> bool {
    // a non-empty list always holds a kernel task, which stays runnable
    &&& tasks.len() > 0 ==> exists|k: int| 0 <= k < tasks.len() && is_kernel(#[trigger] tasks[k])
    &&& forall|i: int|
        0 <= i < tasks.len() && is_kernel(#[trigger] tasks[i]) ==> is_ready_task(tasks[i]) && 2
            <= tasks[i].id.0 < next_id
    &&& forall|i: int| 0 <= i < tasks.len() && is_user(#[trigger] tasks[i]) ==> tasks[i].id.0 == 1
    &&& ids_distinct(tasks)
}

/// Well-formedness of the scheduler state.
pub open spec fn model_wf(m: SchedulerModel) -> bool {
    &&& 0 <= m.current
    &&& m.tasks.len() > 0 ==> m.current < m.tasks.len()
    &&& m.tasks.len() == 0 ==> m.current == 0
    &&& 2 <= m.next_id < usize::MAX
    &&& m.tasks.len() + (if m.main_tracked { 0int } else { 1int }) <= MAX_TASKS
    &&& tasks_ok(m.tasks, m.next_id)
    // before the initial user thread is tracked, only kernel tasks are listed
    &&& !m.main_tracked ==> m.current == 0 && forall|i: int|
        0 <= i < m.tasks.len() ==> is_kernel(#[trigger] m.tasks[i])
}

/// The state after the initial user thread, interrupted at `esp`, has been
/// put in front of the list (once).
pub open spec fn ensure_tracked_spec(m: SchedulerModel, esp: u32) -> SchedulerModel {
    if m.main_tracked {
        m
    } else {
        SchedulerModel {
            tasks: seq![placeholder_spec(esp)] + m.tasks,
            current: 0,
            main_tracked: true,
            ..m
        }
    }
}

/// A task after the sleeping ones whose deadline has come were woken.
pub open spec fn woken(t: Task, now: u64) -> Task {
    match t.state {
        TaskState::Sleeping { wake_at } => if now >= wake_at {
            Task { state: TaskState::Ready, ..t }
        } else {
            t
        },
        _ => t,
    }
}

pub open spec fn wake_spec(tasks: Seq<Task>, now: u64) -> Seq<Task> {
    Seq::new(tasks.len(), |i: int| woken(tasks[i], now))
}

/// Whether the cleanup pass keeps the task at `i`: it keeps the current
/// task and every task that is not terminated.
pub open spec fn kept_at(tasks: Seq<Task>, cur: int, i: int) -> bool {
    i == cur || !is_terminated(tasks[i])
}

/// The tasks among the first `n` that the cleanup pass keeps, in order.
pub open spec fn keep_prefix(tasks: Seq<Task>, cur: int, n: int) -> Seq<Task>
    decreases n,
{
    if n <= 0 {
        Seq::empty()
    } else if kept_at(tasks, cur, n - 1) {
        keep_prefix(tasks, cur, n - 1).push(tasks[n - 1])
    } else {
        keep_prefix(tasks, cur, n - 1)
    }
}

/// Terminated tasks other than the current one removed; the current task
/// keeps its place in the shortened list.
pub open spec fn cleanup_spec(tasks: Seq<Task>, cur: int) -> (Seq<Task>, int) {
    (keep_prefix(tasks, cur, tasks.len() as int), keep_prefix(tasks, cur, cur).len() as int)
}

/// First ready task at offsets `k, k+1, ..., len` after `start`, going round.
pub open spec fn ready_from(tasks: Seq<Task>, start: int, k: int) -> Option<int>
    decreases tasks.len() + 1 - k,
{
    if tasks.len() == 0 || k > tasks.len() || k < 1 {
        None
    } else if is_ready_task(tasks[(start + k) % (tasks.len() as int)]) {
        Some((start + k) % (tasks.len() as int))
    } else {
        ready_from(tasks, start, k + 1)
    }
}

/// The next ready task after `start` in round-robin order; `start` itself
/// comes last.
pub open spec fn ready_after(tasks: Seq<Task>, start: int) -> Option<int> {
    ready_from(tasks, start, 1)
}

/// The current task after it was interrupted at `esp`: it is removed if it
/// was terminated, otherwise its stack pointer is saved and it is charged
/// one tick.
pub open spec fn retire_current_spec(tasks: Seq<Task>, cur: int, esp: u32) -> (Seq<Task>, int) {
    if is_terminated(tasks[cur]) {
        let t = tasks.remove(cur);
        (t, if cur >= t.len() { 0 } else { cur })
    } else {
        (
            tasks.update(
                cur,
                Task { stack_ptr: esp, run_ticks: tasks[cur].run_ticks.wrapping_add(1), ..tasks[cur] },
            ),
            cur,
        )
    }
}

/// One timer tick: the new state and the stack pointer to resume.
pub open spec fn schedule_spec(m: SchedulerModel, esp: u32) -> (SchedulerModel, u32) {
    let ticks = m.ticks.wrapping_add(1);
    if m.tasks.len() == 0 {
        (SchedulerModel { ticks, ..m }, esp)
    } else {
        let m1 = ensure_tracked_spec(m, esp);
        let t1 = wake_spec(m1.tasks, ticks);
        let (t2, c2) = cleanup_spec(t1, m1.current);
        let (t3, c3) = retire_current_spec(t2, c2, esp);
        let (t4, c4) = cleanup_spec(t3, c3);
        let next = ready_after(t4, c4).unwrap();
        (SchedulerModel { tasks: t4, current: next, ticks, ..m1 }, t4[next].stack_ptr)
    }
}


/// The state after the current user task asked to sleep for `ticks` ticks
/// at `esp`, and whether the request was accepted.
pub open spec fn sleep_spec(m: SchedulerModel, esp: u32, ticks: u32) -> (SchedulerModel, bool) {
    if m.tasks.len() == 0 {
        (m, false)
    } else {
        let m1 = ensure_tracked_spec(m, esp);
        let c = m1.tasks[m1.current];
        if !is_user(c) || is_terminated(c) {
            (m1, false)
        } else {
            let span: u64 = if ticks == 0 { 1 } else { ticks as u64 };
            (
                SchedulerModel {
                    tasks: m1.tasks.update(
                        m1.current,
                        Task {
                            stack_ptr: esp,
                            state: TaskState::Sleeping { wake_at: m1.ticks.wrapping_add(span) },
                            ..c
                        },
                    ),
                    ..m1
                },
                true,
            )
        }
    }
}

/// Position of the task with id `pid`, if there is one.
pub open spec fn pid_index(tasks: Seq<Task>, pid: usize) -> Option<int> {
    if exists|i: int| 0 <= i < tasks.len() && (#[trigger] tasks[i]).id.0 == pid {
        Some(choose|i: int| 0 <= i < tasks.len() && (#[trigger] tasks[i]).id.0 == pid)
    } else {
        None
    }
}

/// The state and the answer of `kill <pid>`.
pub open spec fn kill_spec(m: SchedulerModel, pid: usize) -> (
    SchedulerModel,
    Result<KillTaskResult, &'static str>,
) {
    if pid == 0 {
        (m, Err("cannot kill kernel task"))
    } else {
        match pid_index(m.tasks, pid) {
            None => (m, Err("pid not found")),
            Some(idx) => if !is_user(m.tasks[idx]) {
                (m, Err("cannot kill kernel task"))
            } else if idx == m.current {
                (
                    SchedulerModel {
                        tasks: m.tasks.update(idx, Task { state: TaskState::Terminated, ..m.tasks[idx] }),
                        ..m
                    },
                    Ok(KillTaskResult::MarkedForTermination),
                )
            } else {
                let t = m.tasks.remove(idx);
                let c = if idx < m.current && m.current > 0 {
                    m.current - 1
                } else {
                    m.current
                };
                let c2 = if c >= t.len() && t.len() > 0 {
                    0
                } else {
                    c
                };
                (SchedulerModel { tasks: t, current: c2, ..m }, Ok(KillTaskResult::KilledNow))
            },
        }
    }
}

/// The state after the current user task faulted at `esp` and was removed,
/// and the stack pointer of the task that runs next.
pub open spec fn terminate_spec(m: SchedulerModel, esp: u32) -> (SchedulerModel, u32) {
    let m1 = ensure_tracked_spec(m, esp);
    let t = m1.tasks.remove(m1.current);
    let c = if m1.current >= t.len() { 0 } else { m1.current };
    let t1 = wake_spec(t, m1.ticks);
    let (t2, c2) = cleanup_spec(t1, c);
    let next = ready_after(t2, c2).unwrap();
    (SchedulerModel { tasks: t2, current: next, ..m1 }, t2[next].stack_ptr)
}

pub open spec fn stats_spec(m: SchedulerModel) -> SchedulerStats {
    SchedulerStats {
        total_ticks: m.ticks,
        total_tasks: (if m.main_tracked {
            m.tasks.len() + 1
        } else {
            m.tasks.len() + 2
        }) as usize,
        current_task_id: if m.main_tracked && 0 <= m.current < m.tasks.len() {
            m.tasks[m.current].id.0
        } else {
            0
        },
    }
}

pub open spec fn snapshot_of(t: Task, is_current: bool) -> ProcessSnapshot {
    ProcessSnapshot {
        id: t.id.0,
        name: t.name,
        state: t.state_label_spec(is_current),
        privilege: t.privilege.label_spec(),
        run_ticks: t.run_ticks,
    }
}

pub open spec fn idle_snapshot() -> ProcessSnapshot {
    ProcessSnapshot { id: 0, name: "kernel_idle", state: "idle", privilege: "kernel", run_ticks: 0 }
}

pub open spec fn pending_main_snapshot() -> ProcessSnapshot {
    ProcessSnapshot { id: 1, name: "user_main", state: "running", privilege: "user", run_ticks: 0 }
}

/// The process list: the idle task, then (until the scheduler has first run)
/// the initial user thread, then every listed task.
pub open spec fn snapshot_spec(m: SchedulerModel) -> Seq<ProcessSnapshot> {
    if m.main_tracked {
        seq![idle_snapshot()] + Seq::new(
            m.tasks.len(),
            |i: int| snapshot_of(m.tasks[i], i == m.current),
        )
    } else {
        seq![idle_snapshot(), pending_main_snapshot()] + Seq::new(
            m.tasks.len(),
            |i: int| snapshot_of(m.tasks[i], false),
        )
    }
}

/// First ready task in list order.
pub open spec fn first_ready(tasks: Seq<Task>) -> Option<int> {
    if exists|i: int| 0 <= i < tasks.len() && is_ready_task(#[trigger] tasks[i]) {
        Some(
            choose|i: int|
                0 <= i < tasks.len() && is_ready_task(#[trigger] tasks[i]) && forall|j: int|
                    0 <= j < i ==> !is_ready_task(#[trigger] tasks[j]),
        )
    } else {
        None
    }
}

pub open spec fn opt_index(r: Option<usize>) -> Option<int> {
    match r {
        Some(i) => Some(i as int),
        None => None,
    }
}

impl TaskManager {
    /// An empty scheduler: no tasks registered, tick count zero, the next
    /// registered task gets id 2.
    pub fn new() -> (tm: TaskManager)
        ensures
            tm@ == (SchedulerModel {
                tasks: Seq::empty(),
                current: 0,
                next_id: 2,
                ticks: 0,
                main_tracked: false,
            }),
            model_wf(tm@),
    {
        TaskManager {
            tasks: Vec::new(),
            current_task_idx: 0,
            next_task_id: 2,
            tick_count: 0,
            main_task_tracked: false,
        }
    }

    /// Puts the initial user thread, interrupted at `current_esp`, in front
    /// of the list the first time it is seen.
    pub fn ensure_main_task_tracked(&mut self, current_esp: u32)
        requires
            model_wf(old(self)@),
            old(self)@.tasks.len() > 0,
        ensures
            final(self)@ == ensure_tracked_spec(old(self)@, current_esp),
            model_wf(final(self)@),
    {
        if !self.main_task_tracked {
            self.tasks.insert(0, Task::placeholder_main(current_esp));
            self.main_task_tracked = true;
            self.current_task_idx = 0;
            proof {
                let t = self.tasks@;
                let o = old(self)@.tasks;
                assert(t == seq![placeholder_spec(current_esp)] + o);
                assert(is_kernel(o[0]));
                assert(is_kernel(t[1]));
                assert forall|i: int, j: int|
                    0 <= i < t.len() && 0 <= j < t.len() && i != j implies #[trigger] t[i].id
                    != #[trigger] t[j].id by {
                    if i > 0 && j > 0 {
                        assert(o[i - 1].id != o[j - 1].id);
                    } else if i == 0 {
                        assert(is_kernel(o[j - 1]));
                    } else {
                        assert(is_kernel(o[i - 1]));
                    }
                }
                assert forall|i: int|
                    0 <= i < t.len() && is_kernel(#[trigger] t[i]) implies is_ready_task(t[i]) && 2
                    <= t[i].id.0 < self.next_task_id by {
                    assert(t[i] == o[i - 1]);
                }
                assert forall|i: int| 0 <= i < t.len() && is_user(#[trigger] t[i]) implies t[i].id.0
                    == 1 by {
                    if i > 0 {
                        assert(t[i] == o[i - 1]);
                        assert(is_kernel(o[i - 1]));
                    }
                }
            }
        }
    }

    /// Marks ready every sleeping task whose wake-up tick has come.
    pub fn wake_sleeping_tasks(&mut self)
        ensures
            final(self)@ == (SchedulerModel {
                tasks: wake_spec(old(self)@.tasks, old(self)@.ticks),
                ..old(self)@
            }),
    {
        let n = self.tasks.len();
        let mut i: usize = 0;
        while i < n
            invariant
                i <= n,
                n == old(self)@.tasks.len(),
                self.tasks@.len() == n,
                self.current_task_idx == old(self).current_task_idx,
                self.next_task_id == old(self).next_task_id,
                self.tick_count == old(self).tick_count,
                self.main_task_tracked == old(self).main_task_tracked,
                forall|j: int| 0 <= j < i ==> self.tasks@[j] == woken(old(self)@.tasks[j], self.tick_count),
                forall|j: int| i <= j < n ==> self.tasks@[j] == old(self)@.tasks[j],
            decreases n - i,
        {
            let t = self.tasks[i];
            match t.state {
                TaskState::Sleeping { wake_at } => {
                    if self.tick_count >= wake_at {
                        self.tasks.set(i, Task { state: TaskState::Ready, ..t });
                    }
                },
                _ => {},
            }
            i += 1;
        }
        assert(self.tasks@ =~= wake_spec(old(self)@.tasks, old(self)@.ticks));
    }

    /// Drops every terminated task except the current one; the current task
    /// index follows the current task.
    pub fn cleanup_terminated_non_current(&mut self)
        requires
            old(self)@.tasks.len() > 0 ==> old(self)@.current < old(self)@.tasks.len(),
        ensures
            old(self)@.tasks.len() == 0 ==> final(self)@ == old(self)@,
            old(self)@.tasks.len() > 0 ==> final(self)@ == (SchedulerModel {
                tasks: cleanup_spec(old(self)@.tasks, old(self)@.current).0,
                current: cleanup_spec(old(self)@.tasks, old(self)@.current).1,
                ..old(self)@
            }),
    {
        let n = self.tasks.len();
        if n == 0 {
            return;
        }
        let cur = self.current_task_idx;
        let mut kept: Vec<Task> = Vec::new();
        let mut new_cur: usize = 0;
        let mut i: usize = 0;
        let ghost orig = self.tasks@;
        while i < n
            invariant
                i <= n,
                n == orig.len(),
                cur < n,
                self.tasks@ == orig,
                kept@ == keep_prefix(orig, cur as int, i as int),
                i > cur ==> new_cur == keep_prefix(orig, cur as int, cur as int).len(),
                kept@.len() <= i,
            decreases n - i,
        {
            let t = self.tasks[i];
            if i == cur {
                new_cur = kept.len();
                kept.push(t);
            } else {
                match t.state {
                    TaskState::Terminated => {},
                    _ => {
                        kept.push(t);
                    },
                }
            }
            i += 1;
        }
        self.tasks = kept;
        self.current_task_idx = new_cur;
    }

    /// Index of the first ready task, if any.
    pub fn first_ready_index(&self) -> (r: Option<usize>)
        ensures
            opt_index(r) == first_ready(self@.tasks),
    {
        let n = self.tasks.len();
        let mut i: usize = 0;
        while i < n
            invariant
                i <= n,
                n == self@.tasks.len(),
                forall|j: int| 0 <= j < i ==> !is_ready_task(#[trigger] self@.tasks[j]),
            decreases n - i,
        {
            if self.tasks[i].state.is_ready() {
                let ghost c = choose|k: int|
                    0 <= k < self@.tasks.len() && is_ready_task(#[trigger] self@.tasks[k]) && forall|j: int|
                        0 <= j < k ==> !is_ready_task(#[trigger] self@.tasks[j]);
                assert(is_ready_task(self@.tasks[i as int]));
                proof {
                    if c < i {
                    } else if c > i {
                        assert(!is_ready_task(self@.tasks[i as int]));
                    }
                }
                return Some(i);
            }
            i += 1;
        }
        None
    }

    /// The next ready task after `start_idx`, going round the list; the task
    /// at `start_idx` itself is tried last.
    pub fn next_ready_after(&self, start_idx: usize) -> (r: Option<usize>)
        requires
            start_idx + self@.tasks.len() < usize::MAX,
        ensures
            opt_index(r) == ready_after(self@.tasks, start_idx as int),
    {
        let n = self.tasks.len();
        if n == 0 {
            return None;
        }
        let mut offset: usize = 1;
        while offset <= n
            invariant
                1 <= offset <= n + 1,
                n == self@.tasks.len(),
                start_idx + n < usize::MAX,
                ready_from(self@.tasks, start_idx as int, offset as int) == ready_after(
                    self@.tasks,
                    start_idx as int,
                ),
            decreases n + 1 - offset,
        {
            let idx = (start_idx + offset) % n;
            if self.tasks[idx].state.is_ready() {
                return Some(idx);
            }
            offset += 1;
        }
        None
    }

    /// Adds a ready kernel task whose initial frame (see
    /// `Task::initial_frame`) was written under `stack_top`.
    pub fn register_named_task(&mut self, name: &'static str, stack_top: u32)
        requires
            model_wf(old(self)@),
            old(self)@.tasks.len() + 2 <= MAX_TASKS,
            old(self)@.next_id + 1 < usize::MAX,
            stack_top >= 4 * INITIAL_FRAME_WORDS,
        ensures
            final(self)@ == (SchedulerModel {
                tasks: old(self)@.tasks.push(
                    Task {
                        id: TaskId(old(self)@.next_id as usize),
                        name,
                        privilege: TaskPrivilege::Kernel,
                        state: TaskState::Ready,
                        stack_ptr: (stack_top - 4 * INITIAL_FRAME_WORDS) as u32,
                        run_ticks: 0,
                    },
                ),
                next_id: old(self)@.next_id + 1,
                ..old(self)@
            }),
            model_wf(final(self)@),
    {
        let task = Task::new(TaskId(self.next_task_id), name, TaskPrivilege::Kernel, stack_top);
        self.next_task_id += 1;
        self.tasks.push(task);
        proof {
            let t = self.tasks@;
            let o = old(self)@.tasks;
            let last = t.len() - 1;
            assert(t[last] == task);
            assert(is_kernel(t[last]));
            assert forall|i: int, j: int|
                0 <= i < t.len() && 0 <= j < t.len() && i != j implies #[trigger] t[i].id
                != #[trigger] t[j].id by {
                if i < last && j < last {
                    assert(o[i].id != o[j].id);
                } else if i == last {
                    assert(t[j] == o[j]);
                    if is_user(o[j]) {
                    } else {
                        assert(is_kernel(o[j]));
                    }
                } else {
                    assert(t[i] == o[i]);
                    if is_user(o[i]) {
                    } else {
                        assert(is_kernel(o[i]));
                    }
                }
            }
            assert forall|i: int|
                0 <= i < t.len() && is_kernel(#[trigger] t[i]) implies is_ready_task(t[i]) && 2
                <= t[i].id.0 < self.next_task_id by {
                if i < last {
                    assert(t[i] == o[i]);
                }
            }
            assert forall|i: int| 0 <= i < t.len() && is_user(#[trigger] t[i]) implies t[i].id.0
                == 1 by {
                if i < last {
                    assert(t[i] == o[i]);
                }
            }
            assert forall|i: int| 0 <= i < t.len() && !self.main_task_tracked implies is_kernel(
                #[trigger] t[i],
            ) by {
                if i < last {
                    assert(t[i] == o[i]);
                }
            }
            assert(tasks_ok(self@.tasks, self@.next_id));
        }
    }

    /// One timer tick, interrupting the running task at `current_esp`:
    /// counts the tick, wakes sleepers whose time has come, retires the
    /// interrupted task (removing it if it was killed, otherwise saving its
    /// stack pointer and charging it the tick), drops other killed tasks and
    /// picks the next ready task round-robin. Returns the stack pointer to
    /// resume; with no tasks registered, `current_esp` itself.
    pub fn schedule_next(&mut self, current_esp: u32) -> (next_esp: u32)
        requires
            model_wf(old(self)@),
        ensures
            (final(self)@, next_esp) == schedule_spec(old(self)@, current_esp),
            model_wf(final(self)@),
    {
        self.tick_count = self.tick_count.wrapping_add(1);
        if self.tasks.len() == 0 {
            return current_esp;
        }
        self.ensure_main_task_tracked(current_esp);
        let ghost m1 = self@;
        self.wake_sleeping_tasks();
        proof {
            lemma_wake(m1.tasks, self.tick_count, m1.next_id);
        }
        let ghost t1 = self.tasks@;
        self.cleanup_terminated_non_current();
        proof {
            lemma_cleanup(t1, m1.current, m1.next_id);
        }
        let ghost t2 = self.tasks@;
        let ghost c2 = self.current_task_idx as int;
        let cur = self.current_task_idx;
        let current_terminated = match self.tasks[cur].state {
            TaskState::Terminated => true,
            _ => false,
        };
        if current_terminated {
            self.tasks.remove(cur);
            if self.current_task_idx >= self.tasks.len() {
                self.current_task_idx = 0;
            }
        } else {
            let t = self.tasks[cur];
            self.tasks.set(
                cur,
                Task { stack_ptr: current_esp, run_ticks: t.run_ticks.wrapping_add(1), ..t },
            );
        }
        proof {
            lemma_retire(t2, c2, current_esp, m1.next_id);
            assert(self.tasks@ =~= retire_current_spec(t2, c2, current_esp).0);
        }
        let ghost t3 = self.tasks@;
        let ghost c3 = self.current_task_idx as int;
        self.cleanup_terminated_non_current();
        proof {
            lemma_cleanup(t3, c3, m1.next_id);
        }
        let next_idx = match self.next_ready_after(self.current_task_idx) {
            Some(i) => i,
            None => {
                proof {
                    let t4 = self.tasks@;
                    let kk = choose|k: int| 0 <= k < t4.len() && is_kernel(#[trigger] t4[k]);
                    lemma_ready_after_some(t4, self.current_task_idx as int, kk);
                }
                self.current_task_idx
            },
        };
        proof {
            let t4 = self.tasks@;
            let kk = choose|k: int| 0 <= k < t4.len() && is_kernel(#[trigger] t4[k]);
            lemma_ready_after_some(t4, self.current_task_idx as int, kk);
        }
        self.current_task_idx = next_idx;
        self.tasks[next_idx].stack_ptr
    }

    /// Puts the current user task to sleep for `ticks` ticks (at least one),
    /// saving its stack pointer `current_esp`. Returns false, changing nothing
    /// but the tracking of the initial user thread, when there are no tasks
    /// or the current task is not a live user task.
    pub fn sleep_current_task(&mut self, current_esp: u32, ticks: u32) -> (accepted: bool)
        requires
            model_wf(old(self)@),
        ensures
            (final(self)@, accepted) == sleep_spec(old(self)@, current_esp, ticks),
            model_wf(final(self)@),
    {
        if self.tasks.len() == 0 {
            return false;
        }
        self.ensure_main_task_tracked(current_esp);
        if self.tasks.len() == 0 {
            return false;
        }
        if self.current_task_idx >= self.tasks.len() {
            return false;
        }
        let cur = self.current_task_idx;
        let current = self.tasks[cur];
        match current.privilege {
            TaskPrivilege::User => {},
            TaskPrivilege::Kernel => {
                return false;
            },
        }
        match current.state {
            TaskState::Terminated => {
                return false;
            },
            _ => {},
        }
        let span: u64 = if ticks == 0 {
            1
        } else {
            ticks as u64
        };
        self.tasks.set(
            cur,
            Task {
                stack_ptr: current_esp,
                state: TaskState::Sleeping { wake_at: self.tick_count.wrapping_add(span) },
                ..current
            },
        );
        proof {
            let m1 = ensure_tracked_spec(old(self)@, current_esp);
            lemma_update_user(m1.tasks, cur as int, self.tasks@[cur as int], m1.next_id);
            assert(self.tasks@ =~= m1.tasks.update(cur as int, self.tasks@[cur as int]));
        }
        true
    }

    /// Position of the task with id `pid`.
    fn find_pid(&self, pid: usize) -> (r: Option<usize>)
        requires
            ids_distinct(self@.tasks),
        ensures
            opt_index(r) == pid_index(self@.tasks, pid),
    {
        let n = self.tasks.len();
        let mut i: usize = 0;
        while i < n
            invariant
                i <= n,
                n == self@.tasks.len(),
                ids_distinct(self@.tasks),
                forall|j: int| 0 <= j < i ==> (#[trigger] self@.tasks[j]).id.0 != pid,
            decreases n - i,
        {
            if self.tasks[i].id.0 == pid {
                proof {
                    let t = self@.tasks;
                    assert(t[i as int].id.0 == pid);
                    assert(exists|k: int| 0 <= k < t.len() && (#[trigger] t[k]).id.0 == pid);
                    let c = choose|k: int| 0 <= k < t.len() && (#[trigger] t[k]).id.0 == pid;
                    assert(t[c].id.0 == pid);
                    if c != i {
                        assert(t[c].id != t[i as int].id);
                    }
                }
                return Some(i);
            }
            i += 1;
        }
        None
    }

    /// `kill <pid>`: user tasks only. The running task is marked and removed
    /// at the next tick; any other is removed at once.
    pub fn kill_task_by_pid(&mut self, pid: usize) -> (r: Result<KillTaskResult, &'static str>)
        requires
            model_wf(old(self)@),
        ensures
            (final(self)@, r) == kill_spec(old(self)@, pid),
            model_wf(final(self)@),
    {
        if pid == 0 {
            return Err("cannot kill kernel task");
        }
        let idx = match self.find_pid(pid) {
            Some(i) => i,
            None => {
                return Err("pid not found");
            },
        };
        match self.tasks[idx].privilege {
            TaskPrivilege::User => {},
            TaskPrivilege::Kernel => {
                return Err("cannot kill kernel task");
            },
        }
        if idx == self.current_task_idx {
            let t = self.tasks[idx];
            self.tasks.set(idx, Task { state: TaskState::Terminated, ..t });
            proof {
                lemma_update_user(old(self)@.tasks, idx as int, self.tasks@[idx as int], self.next_task_id as int);
                assert(self.tasks@ =~= old(self)@.tasks.update(idx as int, self.tasks@[idx as int]));
            }
            return Ok(KillTaskResult::MarkedForTermination);
        }
        self.tasks.remove(idx);
        if idx < self.current_task_idx && self.current_task_idx > 0 {
            self.current_task_idx -= 1;
        }
        if self.current_task_idx >= self.tasks.len() && self.tasks.len() > 0 {
            self.current_task_idx = 0;
        }
        proof {
            lemma_remove_user(old(self)@.tasks, idx as int, self.next_task_id as int);
        }
        Ok(KillTaskResult::KilledNow)
    }

    /// The current user task faulted at `current_esp`: it is removed and the
    /// next ready task is picked as at a tick (without counting one).
    /// Returns the stack pointer to resume.
    pub fn terminate_current_user_task_from_fault(&mut self, current_esp: u32) -> (next_esp: u32)
        requires
            model_wf(old(self)@),
            old(self)@.tasks.len() > 0,
            old(self)@.main_tracked ==> is_user(old(self)@.tasks[old(self)@.current]),
        ensures
            (final(self)@, next_esp) == terminate_spec(old(self)@, current_esp),
            model_wf(final(self)@),
    {
        self.ensure_main_task_tracked(current_esp);
        let ghost m1 = self@;
        if self.current_task_idx >= self.tasks.len() {
            self.current_task_idx = 0;
        }
        let cur = self.current_task_idx;
        self.tasks.remove(cur);
        if self.current_task_idx >= self.tasks.len() {
            self.current_task_idx = 0;
        }
        proof {
            lemma_remove_user(m1.tasks, cur as int, m1.next_id);
        }
        let ghost t = self.tasks@;
        let ghost c = self.current_task_idx as int;
        self.wake_sleeping_tasks();
        proof {
            lemma_wake(t, self.tick_count, m1.next_id);
        }
        let ghost t1 = self.tasks@;
        self.cleanup_terminated_non_current();
        proof {
            lemma_cleanup(t1, c, m1.next_id);
        }
        let next_idx = match self.next_ready_after(self.current_task_idx) {
            Some(i) => i,
            None => {
                proof {
                    let t4 = self.tasks@;
                    let kk = choose|k: int| 0 <= k < t4.len() && is_kernel(#[trigger] t4[k]);
                    lemma_ready_after_some(t4, self.current_task_idx as int, kk);
                }
                self.current_task_idx
            },
        };
        proof {
            let t4 = self.tasks@;
            let kk = choose|k: int| 0 <= k < t4.len() && is_kernel(#[trigger] t4[k]);
            lemma_ready_after_some(t4, self.current_task_idx as int, kk);
        }
        self.current_task_idx = next_idx;
        self.tasks[next_idx].stack_ptr
    }

    /// Whether a user fault can be handled (see
    /// `terminate_current_user_task_from_fault`): the task list is not empty
    /// and, once the initial user thread is tracked, the running task is a
    /// user task.
    pub fn can_terminate_current_user_task(&self) -> (r: bool)
        requires
            model_wf(self@),
        ensures
            r == (self@.tasks.len() > 0 && (self@.main_tracked ==> is_user(
                self@.tasks[self@.current],
            ))),
    {
        if self.tasks.len() == 0 {
            return false;
        }
        if !self.main_task_tracked {
            return true;
        }
        match self.tasks[self.current_task_idx].privilege {
            TaskPrivilege::User => true,
            TaskPrivilege::Kernel => false,
        }
    }

    /// Tick count, number of tasks (counting the virtual idle task and, until
    /// the scheduler first runs, the initial user thread) and the running
    /// task's id (0 before the scheduler first runs).
    pub fn stats(&self) -> (st: SchedulerStats)
        requires
            model_wf(self@),
        ensures
            st == stats_spec(self@),
    {
        let total_tasks = if self.main_task_tracked {
            self.tasks.len() + 1
        } else {
            self.tasks.len() + 2
        };
        let current_task_id = if self.main_task_tracked {
            if self.current_task_idx < self.tasks.len() {
                self.tasks[self.current_task_idx].id.as_usize()
            } else {
                0
            }
        } else {
            0
        };
        SchedulerStats { total_ticks: self.tick_count, total_tasks, current_task_id }
    }

    /// The process list that `ps` prints.
    pub fn process_snapshot(&self) -> (list: Vec<ProcessSnapshot>)
        ensures
            list@ == snapshot_spec(self@),
    {
        let mut list: Vec<ProcessSnapshot> = Vec::new();
        list.push(
            ProcessSnapshot {
                id: 0,
                name: "kernel_idle",
                state: "idle",
                privilege: "kernel",
                run_ticks: 0,
            },
        );
        if !self.main_task_tracked {
            list.push(
                ProcessSnapshot {
                    id: 1,
                    name: "user_main",
                    state: "running",
                    privilege: "user",
                    run_ticks: 0,
                },
            );
        }
        let ghost head = list@;
        let n = self.tasks.len();
        let mut i: usize = 0;
        while i < n
            invariant
                i <= n,
                n == self@.tasks.len(),
                list@.len() == head.len() + i,
                forall|j: int| 0 <= j < head.len() ==> list@[j] == head[j],
                forall|j: int|
                    0 <= j < i ==> list@[head.len() + j] == snapshot_of(
                        self@.tasks[j],
                        self.main_task_tracked && j == self.current_task_idx,
                    ),
            decreases n - i,
        {
            let task = self.tasks[i];
            let is_current = self.main_task_tracked && i == self.current_task_idx;
            list.push(
                ProcessSnapshot {
                    id: task.id.as_usize(),
                    name: task.name,
                    state: task.state_label(is_current),
                    privilege: task.privilege.label(),
                    run_ticks: task.run_ticks,
                },
            );
            i += 1;
        }
        proof {
            let sp = snapshot_spec(self@);
            assert(list@.len() == sp.len());
            assert forall|j: int| 0 <= j < sp.len() implies list@[j] == sp[j] by {
                if j < head.len() {
                    if self.main_task_tracked {
                        assert(head =~= seq![idle_snapshot()]);
                    } else {
                        assert(head =~= seq![idle_snapshot(), pending_main_snapshot()]);
                    }
                    assert(list@[j] == head[j]);
                } else {
                    assert(list@[head.len() + (j - head.len())] == snapshot_of(
                        self@.tasks[j - head.len()],
                        self.main_task_tracked && j - head.len() == self.current_task_idx,
                    ));
                }
            }
            assert(list@ =~= sp);
        }
        list
    }
}

// ---------------------------------------------------------------------------
// Lemmas about the pieces of a scheduling step

/// The task at `k` of the kept tasks among the first `n` came from position
/// `k` of the input list; `keep_prefix(tasks, cur, k).len()` tasks were
/// kept before it.
proof fn lemma_keep_origin(tasks: Seq<Task>, cur: int, n: int, i: int) -> (k: int)
    requires
        0 <= n <= tasks.len(),
        0 <= i < keep_prefix(tasks, cur, n).len(),
    ensures
        0 <= k < n,
        kept_at(tasks, cur, k),
        keep_prefix(tasks, cur, n)[i] == tasks[k],
        keep_prefix(tasks, cur, k).len() == i,
    decreases n,
{
    if kept_at(tasks, cur, n - 1) && i == keep_prefix(tasks, cur, n - 1).len() {
        n - 1
    } else {
        lemma_keep_origin(tasks, cur, n - 1, i)
    }
}

/// A kept task at `k` stands at position `keep_prefix(.., k).len()`.
proof fn lemma_keep_position(tasks: Seq<Task>, cur: int, n: int, k: int)
    requires
        0 <= k < n <= tasks.len(),
        kept_at(tasks, cur, k),
    ensures
        keep_prefix(tasks, cur, k).len() < keep_prefix(tasks, cur, n).len(),
        keep_prefix(tasks, cur, n)[keep_prefix(tasks, cur, k).len() as int] == tasks[k],
    decreases n,
{
    if k < n - 1 {
        lemma_keep_position(tasks, cur, n - 1, k);
    }
}

/// The number of kept tasks grows with the prefix.
proof fn lemma_keep_len_mono(tasks: Seq<Task>, cur: int, a: int, b: int)
    requires
        0 <= a <= b <= tasks.len(),
    ensures
        keep_prefix(tasks, cur, a).len() <= keep_prefix(tasks, cur, b).len(),
        keep_prefix(tasks, cur, b).len() <= b,
    decreases b,
{
    if b > 0 {
        if a < b {
            lemma_keep_len_mono(tasks, cur, a, b - 1);
        } else {
            lemma_keep_len_mono(tasks, cur, b - 1, b - 1);
        }
    }
}

/// Cleanup keeps a well-formed list well formed, keeps the current task at
/// the returned index, and keeps every task that is not terminated.
proof fn lemma_cleanup(tasks: Seq<Task>, cur: int, next_id: int)
    requires
        tasks_ok(tasks, next_id),
        0 <= cur < tasks.len(),
    ensures
        ({
            let (t2, c2) = cleanup_spec(tasks, cur);
            &&& tasks_ok(t2, next_id)
            &&& 0 <= c2 < t2.len()
            &&& t2[c2] == tasks[cur]
            &&& t2.len() <= tasks.len()
            &&& forall|k: int|
                0 <= k < tasks.len() && !is_terminated(tasks[k]) ==> #[trigger] t2.contains(
                    tasks[k],
                )
            &&& forall|i: int| 0 <= i < t2.len() ==> #[trigger] tasks.contains(t2[i])
        }),
{
    let n = tasks.len() as int;
    let t2 = keep_prefix(tasks, cur, n);
    lemma_keep_position(tasks, cur, n, cur);
    lemma_keep_len_mono(tasks, cur, 0, n);
    assert forall|k: int| 0 <= k < n && !is_terminated(tasks[k]) implies #[trigger] t2.contains(
        tasks[k],
    ) by {
        lemma_keep_position(tasks, cur, n, k);
    }
    assert forall|i: int| 0 <= i < t2.len() implies #[trigger] tasks.contains(t2[i]) by {
        let k = lemma_keep_origin(tasks, cur, n, i);
    }
    // a kernel task survives
    let kk = choose|k: int| 0 <= k < n && is_kernel(#[trigger] tasks[k]);
    lemma_keep_position(tasks, cur, n, kk);
    assert(is_kernel(t2[keep_prefix(tasks, cur, kk).len() as int]));
    assert forall|i: int|
        0 <= i < t2.len() && is_kernel(#[trigger] t2[i]) implies is_ready_task(t2[i]) && 2
        <= t2[i].id.0 < next_id by {
        let k = lemma_keep_origin(tasks, cur, n, i);
    }
    assert forall|i: int| 0 <= i < t2.len() && is_user(#[trigger] t2[i]) implies t2[i].id.0
        == 1 by {
        let k = lemma_keep_origin(tasks, cur, n, i);
    }
    assert forall|i: int, j: int|
        0 <= i < t2.len() && 0 <= j < t2.len() && i != j implies #[trigger] t2[i].id
        != #[trigger] t2[j].id by {
        let ki = lemma_keep_origin(tasks, cur, n, i);
        let kj = lemma_keep_origin(tasks, cur, n, j);
        if ki == kj {
            assert(i == j);
        }
    }
}

/// Waking sleepers keeps a well-formed list well formed.
proof fn lemma_wake(tasks: Seq<Task>, now: u64, next_id: int)
    requires
        tasks_ok(tasks, next_id),
    ensures
        tasks_ok(wake_spec(tasks, now), next_id),
        wake_spec(tasks, now).len() == tasks.len(),
        forall|i: int|
            0 <= i < tasks.len() ==> (#[trigger] wake_spec(tasks, now)[i]).id == tasks[i].id
                && wake_spec(tasks, now)[i].privilege == tasks[i].privilege
                && wake_spec(tasks, now)[i].stack_ptr == tasks[i].stack_ptr
                && (is_terminated(wake_spec(tasks, now)[i]) <==> is_terminated(tasks[i])),
{
    let w = wake_spec(tasks, now);
    if tasks.len() > 0 {
        let kk = choose|k: int| 0 <= k < tasks.len() && is_kernel(#[trigger] tasks[k]);
        assert(is_kernel(w[kk]));
    }
    assert forall|i: int, j: int|
        0 <= i < w.len() && 0 <= j < w.len() && i != j implies #[trigger] w[i].id
        != #[trigger] w[j].id by {
        assert(tasks[i].id != tasks[j].id);
    }
}

/// Retiring the current task keeps a well-formed list well formed, provided
/// a terminated current task is not the only one.
proof fn lemma_retire(tasks: Seq<Task>, cur: int, esp: u32, next_id: int)
    requires
        tasks_ok(tasks, next_id),
        0 <= cur < tasks.len(),
    ensures
        ({
            let (t3, c3) = retire_current_spec(tasks, cur, esp);
            &&& tasks_ok(t3, next_id)
            &&& 0 <= c3 < t3.len()
        }),
{
    let (t3, c3) = retire_current_spec(tasks, cur, esp);
    let kk = choose|k: int| 0 <= k < tasks.len() && is_kernel(#[trigger] tasks[k]);
    if is_terminated(tasks[cur]) {
        assert(kk != cur);
        let pos = if kk < cur { kk } else { kk - 1 };
        assert(t3[pos] == tasks[kk]);
        assert(is_kernel(t3[pos]));
        assert forall|i: int, j: int|
            0 <= i < t3.len() && 0 <= j < t3.len() && i != j implies #[trigger] t3[i].id
            != #[trigger] t3[j].id by {
            let oi = if i < cur { i } else { i + 1 };
            let oj = if j < cur { j } else { j + 1 };
            assert(tasks[oi].id != tasks[oj].id);
        }
        assert forall|i: int|
            0 <= i < t3.len() && is_kernel(#[trigger] t3[i]) implies is_ready_task(t3[i]) && 2
            <= t3[i].id.0 < next_id by {
            let oi = if i < cur { i } else { i + 1 };
            assert(t3[i] == tasks[oi]);
        }
        assert forall|i: int| 0 <= i < t3.len() && is_user(#[trigger] t3[i]) implies t3[i].id.0
            == 1 by {
            let oi = if i < cur { i } else { i + 1 };
            assert(t3[i] == tasks[oi]);
        }
    } else {
        assert(is_kernel(t3[kk]));
        assert forall|i: int, j: int|
            0 <= i < t3.len() && 0 <= j < t3.len() && i != j implies #[trigger] t3[i].id
            != #[trigger] t3[j].id by {
            assert(tasks[i].id != tasks[j].id);
        }
    }
}

/// Removing a user task keeps a well-formed list well formed.
proof fn lemma_remove_user(tasks: Seq<Task>, idx: int, next_id: int)
    requires
        tasks_ok(tasks, next_id),
        0 <= idx < tasks.len(),
        is_user(tasks[idx]),
    ensures
        tasks_ok(tasks.remove(idx), next_id),
        tasks.remove(idx).len() > 0,
{
    let tt = tasks.remove(idx);
    let kk = choose|k: int| 0 <= k < tasks.len() && is_kernel(#[trigger] tasks[k]);
    assert(kk != idx);
    let pos = if kk < idx { kk } else { kk - 1 };
    assert(tt[pos] == tasks[kk]);
    assert(is_kernel(tt[pos]));
    assert forall|i: int, j: int|
        0 <= i < tt.len() && 0 <= j < tt.len() && i != j implies #[trigger] tt[i].id
        != #[trigger] tt[j].id by {
        let oi = if i < idx { i } else { i + 1 };
        let oj = if j < idx { j } else { j + 1 };
        assert(tasks[oi].id != tasks[oj].id);
    }
    assert forall|i: int|
        0 <= i < tt.len() && is_kernel(#[trigger] tt[i]) implies is_ready_task(tt[i]) && 2
        <= tt[i].id.0 < next_id by {
        let oi = if i < idx { i } else { i + 1 };
        assert(tt[i] == tasks[oi]);
    }
    assert forall|i: int| 0 <= i < tt.len() && is_user(#[trigger] tt[i]) implies tt[i].id.0
        == 1 by {
        let oi = if i < idx { i } else { i + 1 };
        assert(tt[i] == tasks[oi]);
    }
}

/// Changing a user task other than in id and privilege keeps a well-formed
/// list well formed.
proof fn lemma_update_user(tasks: Seq<Task>, idx: int, t: Task, next_id: int)
    requires
        tasks_ok(tasks, next_id),
        0 <= idx < tasks.len(),
        is_user(tasks[idx]),
        t.id == tasks[idx].id,
        is_user(t),
    ensures
        tasks_ok(tasks.update(idx, t), next_id),
{
    let tt = tasks.update(idx, t);
    let kk = choose|k: int| 0 <= k < tasks.len() && is_kernel(#[trigger] tasks[k]);
    assert(is_kernel(tt[kk]));
    assert forall|i: int, j: int|
        0 <= i < tt.len() && 0 <= j < tt.len() && i != j implies #[trigger] tt[i].id
        != #[trigger] tt[j].id by {
        assert(tasks[i].id != tasks[j].id);
    }
    assert forall|i: int|
        0 <= i < tt.len() && is_kernel(#[trigger] tt[i]) implies is_ready_task(tt[i]) && 2
        <= tt[i].id.0 < next_id by {
        assert(tt[i] == tasks[i]);
    }
}

/// Offsets `k..=len` after `start` reach a ready task at offset `kt`.
proof fn lemma_ready_from_found(tasks: Seq<Task>, start: int, k: int, kt: int)
    requires
        1 <= k <= kt <= tasks.len(),
        is_ready_task(tasks[(start + kt) % (tasks.len() as int)]),
    ensures
        ready_from(tasks, start, k) is Some,
    decreases kt - k,
{
    if !is_ready_task(tasks[(start + k) % (tasks.len() as int)]) {
        lemma_ready_from_found(tasks, start, k + 1, kt);
    }
}

/// A found index is in range and names a ready task.
proof fn lemma_ready_from_result(tasks: Seq<Task>, start: int, k: int)
    requires
        ready_from(tasks, start, k) is Some,
    ensures
        0 <= ready_from(tasks, start, k).unwrap() < tasks.len(),
        is_ready_task(tasks[ready_from(tasks, start, k).unwrap()]),
    decreases tasks.len() + 1 - k,
{
    if !is_ready_task(tasks[(start + k) % (tasks.len() as int)]) {
        lemma_ready_from_result(tasks, start, k + 1);
    }
}

/// Round-robin search finds a ready task whenever there is one.
pub proof fn lemma_ready_after_some(tasks: Seq<Task>, start: int, idx: int)
    requires
        0 <= start,
        0 <= idx < tasks.len(),
        is_ready_task(tasks[idx]),
    ensures
        ready_after(tasks, start) is Some,
        0 <= ready_after(tasks, start).unwrap() < tasks.len(),
        is_ready_task(tasks[ready_after(tasks, start).unwrap()]),
{
    let n = tasks.len() as int;
    let q = start / n;
    let sr = start % n;
    vstd::arithmetic::div_mod::lemma_fundamental_div_mod(start, n);
    vstd::arithmetic::div_mod::lemma_small_mod(idx as nat, n as nat);
    let kt = if idx > sr { idx - sr } else { idx - sr + n };
    if idx > sr {
        assert(start + kt == n * q + idx);
        vstd::arithmetic::div_mod::lemma_mod_multiples_vanish(q, idx, n);
    } else {
        assert(start + kt == n * (q + 1) + idx) by (nonlinear_arith)
            requires
                start == n * q + sr,
                kt == idx - sr + n,
        ;
        vstd::arithmetic::div_mod::lemma_mod_multiples_vanish(q + 1, idx, n);
    }
    assert((start + kt) % n == idx);
    lemma_ready_from_found(tasks, start, 1, kt);
    lemma_ready_from_result(tasks, start, 1);
}

} // verus!

verus! {

// ---------------------------------------------------------------------------
// Laws of the scheduler

/// After a timer tick with at least one task listed, the scheduler resumes a
/// ready task, and the stack pointer it returns is that task's.
pub proof fn law_tick_resumes_ready_task(m: SchedulerModel, esp: u32)
    requires
        model_wf(m),
        m.tasks.len() > 0,
    ensures
        ({
            let (m2, next_esp) = schedule_spec(m, esp);
            &&& 0 <= m2.current < m2.tasks.len()
            &&& is_ready_task(m2.tasks[m2.current])
            &&& next_esp == m2.tasks[m2.current].stack_ptr
            &&& m2.ticks == m.ticks.wrapping_add(1)
        }),
{
    let ticks = m.ticks.wrapping_add(1);
    let m1 = ensure_tracked_spec(m, esp);
    lemma_ensure_tracked(m, esp);
    let t1 = wake_spec(m1.tasks, ticks);
    lemma_wake(m1.tasks, ticks, m1.next_id);
    let (t2, c2) = cleanup_spec(t1, m1.current);
    lemma_cleanup(t1, m1.current, m1.next_id);
    let (t3, c3) = retire_current_spec(t2, c2, esp);
    lemma_retire(t2, c2, esp, m1.next_id);
    let (t4, c4) = cleanup_spec(t3, c3);
    lemma_cleanup(t3, c3, m1.next_id);
    let kk = choose|k: int| 0 <= k < t4.len() && is_kernel(#[trigger] t4[k]);
    lemma_ready_after_some(t4, c4, kk);
}

/// Tracking the initial user thread keeps the state well formed.
proof fn lemma_ensure_tracked(m: SchedulerModel, esp: u32)
    requires
        model_wf(m),
        m.tasks.len() > 0,
    ensures
        model_wf(ensure_tracked_spec(m, esp)),
        ensure_tracked_spec(m, esp).main_tracked,
        ensure_tracked_spec(m, esp).next_id == m.next_id,
        ensure_tracked_spec(m, esp).ticks == m.ticks,
        forall|i: int|
            0 <= i < m.tasks.len() ==> #[trigger] ensure_tracked_spec(m, esp).tasks.contains(
                m.tasks[i],
            ),
{
    let m1 = ensure_tracked_spec(m, esp);
    if !m.main_tracked {
        let t = m1.tasks;
        let o = m.tasks;
        assert(is_kernel(t[1]));
        assert forall|i: int, j: int|
            0 <= i < t.len() && 0 <= j < t.len() && i != j implies #[trigger] t[i].id
            != #[trigger] t[j].id by {
            if i > 0 && j > 0 {
                assert(o[i - 1].id != o[j - 1].id);
            } else if i == 0 {
                assert(is_kernel(o[j - 1]));
            } else {
                assert(is_kernel(o[i - 1]));
            }
        }
        assert forall|i: int|
            0 <= i < t.len() && is_kernel(#[trigger] t[i]) implies is_ready_task(t[i]) && 2
            <= t[i].id.0 < m.next_id by {
            assert(t[i] == o[i - 1]);
        }
        assert forall|i: int| 0 <= i < t.len() && is_user(#[trigger] t[i]) implies t[i].id.0
            == 1 by {
            if i > 0 {
                assert(t[i] == o[i - 1]);
                assert(is_kernel(o[i - 1]));
            }
        }
        assert forall|i: int| 0 <= i < m.tasks.len() implies #[trigger] m1.tasks.contains(
            m.tasks[i],
        ) by {
            assert(m1.tasks[i + 1] == m.tasks[i]);
        }
    } else {
        assert forall|i: int| 0 <= i < m.tasks.len() implies #[trigger] m1.tasks.contains(
            m.tasks[i],
        ) by {
            assert(m1.tasks[i] == m.tasks[i]);
        }
    }
}

/// A kernel task is never dropped: every kernel task listed before a timer
/// tick is still listed after it, under the same id.
pub proof fn law_tick_keeps_kernel_tasks(m: SchedulerModel, esp: u32, k: int)
    requires
        model_wf(m),
        0 <= k < m.tasks.len(),
        is_kernel(m.tasks[k]),
    ensures
        exists|j: int|
            0 <= j < schedule_spec(m, esp).0.tasks.len() && (#[trigger] schedule_spec(
                m,
                esp,
            ).0.tasks[j]).id == m.tasks[k].id && is_kernel(schedule_spec(m, esp).0.tasks[j]),
{
    let ticks = m.ticks.wrapping_add(1);
    let m1 = ensure_tracked_spec(m, esp);
    lemma_ensure_tracked(m, esp);
    let tk = m.tasks[k];
    assert(m1.tasks.contains(tk));
    let k1 = choose|i: int| 0 <= i < m1.tasks.len() && m1.tasks[i] == tk;
    let t1 = wake_spec(m1.tasks, ticks);
    lemma_wake(m1.tasks, ticks, m1.next_id);
    assert(t1[k1] == tk);
    let (t2, c2) = cleanup_spec(t1, m1.current);
    lemma_cleanup(t1, m1.current, m1.next_id);
    assert(t2.contains(tk));
    let k2 = choose|i: int| 0 <= i < t2.len() && t2[i] == tk;
    let (t3, c3) = retire_current_spec(t2, c2, esp);
    lemma_retire(t2, c2, esp, m1.next_id);
    let k3 = if is_terminated(t2[c2]) {
        if k2 < c2 { k2 } else { k2 - 1 }
    } else {
        k2
    };
    assert(k2 != c2 || !is_terminated(t2[c2]));
    assert(t3[k3].id == tk.id && is_kernel(t3[k3]) && !is_terminated(t3[k3]));
    let (t4, c4) = cleanup_spec(t3, c3);
    lemma_cleanup(t3, c3, m1.next_id);
    assert(t4.contains(t3[k3]));
    let j = choose|i: int| 0 <= i < t4.len() && t4[i] == t3[k3];
    assert(schedule_spec(m, esp).0.tasks == t4);
    assert(t4[j].id == tk.id && is_kernel(t4[j]));
}

/// Kernel tasks cannot be killed: `kill` of pid 0 or of a kernel task's id
/// fails and leaves the scheduler unchanged.
pub proof fn law_kill_spares_kernel(m: SchedulerModel, pid: usize)
    requires
        model_wf(m),
        pid == 0 || exists|k: int|
            0 <= k < m.tasks.len() && (#[trigger] m.tasks[k]).id.0 == pid && is_kernel(m.tasks[k]),
    ensures
        kill_spec(m, pid).0 == m,
        kill_spec(m, pid).1 is Err,
{
    if pid != 0 {
        let k = choose|k: int|
            0 <= k < m.tasks.len() && (#[trigger] m.tasks[k]).id.0 == pid && is_kernel(m.tasks[k]);
        let c = choose|i: int| 0 <= i < m.tasks.len() && (#[trigger] m.tasks[i]).id.0 == pid;
        if c != k {
            assert(m.tasks[c].id != m.tasks[k].id);
        }
    }
}

/// A killed task is gone: after `kill` answers `KilledNow` no task with that
/// pid is listed, and after it answers `MarkedForTermination` none is listed
/// once the next timer tick has run.
pub proof fn law_killed_task_disappears(m: SchedulerModel, pid: usize, esp: u32)
    requires
        model_wf(m),
    ensures
        kill_spec(m, pid).1 == Ok::<KillTaskResult, &'static str>(KillTaskResult::KilledNow)
            ==> forall|i: int|
            0 <= i < kill_spec(m, pid).0.tasks.len() ==> (#[trigger] kill_spec(
                m,
                pid,
            ).0.tasks[i]).id.0 != pid,
        kill_spec(m, pid).1 == Ok::<KillTaskResult, &'static str>(
            KillTaskResult::MarkedForTermination,
        ) ==> forall|i: int|
            0 <= i < schedule_spec(kill_spec(m, pid).0, esp).0.tasks.len() ==> (
            #[trigger] schedule_spec(kill_spec(m, pid).0, esp).0.tasks[i]).id.0 != pid,
{
    let (mk, r) = kill_spec(m, pid);
    if r == Ok::<KillTaskResult, &'static str>(KillTaskResult::KilledNow) {
        let idx = pid_index(m.tasks, pid).unwrap();
        assert forall|i: int| 0 <= i < mk.tasks.len() implies (#[trigger] mk.tasks[i]).id.0 != pid by {
            let oi = if i < idx { i } else { i + 1 };
            assert(mk.tasks[i] == m.tasks[oi]);
            assert(m.tasks[oi].id != m.tasks[idx].id);
        }
    }
    if r == Ok::<KillTaskResult, &'static str>(KillTaskResult::MarkedForTermination) {
        let idx = pid_index(m.tasks, pid).unwrap();
        lemma_update_user(m.tasks, idx, mk.tasks[idx], m.next_id);
        assert(model_wf(mk));
        // the scheduler was already tracking the initial user thread
        assert(mk.main_tracked);
        let ticks = mk.ticks.wrapping_add(1);
        let m1 = ensure_tracked_spec(mk, esp);
        assert(m1 == mk);
        let t1 = wake_spec(m1.tasks, ticks);
        lemma_wake(m1.tasks, ticks, m1.next_id);
        let (t2, c2) = cleanup_spec(t1, m1.current);
        lemma_cleanup(t1, m1.current, m1.next_id);
        assert(t2[c2] == t1[idx]);
        assert(is_terminated(t2[c2]));
        // every other task had a different id
        assert forall|i: int| 0 <= i < t2.len() && i != c2 implies (#[trigger] t2[i]).id.0 != pid by {
            assert(t1.contains(t2[i]));
            let o = choose|j: int| 0 <= j < t1.len() && t1[j] == t2[i];
            if o == idx {
                assert(t2[i].id == t2[c2].id);
            } else {
                assert(mk.tasks[o].id != mk.tasks[idx].id);
            }
        }
        let (t3, c3) = retire_current_spec(t2, c2, esp);
        assert forall|i: int| 0 <= i < t3.len() implies (#[trigger] t3[i]).id.0 != pid by {
            let oi = if i < c2 { i } else { i + 1 };
            assert(t3[i] == t2[oi]);
        }
        lemma_retire(t2, c2, esp, m1.next_id);
        let (t4, c4) = cleanup_spec(t3, c3);
        lemma_cleanup(t3, c3, m1.next_id);
        assert forall|i: int| 0 <= i < t4.len() implies (#[trigger] t4[i]).id.0 != pid by {
            assert(t3.contains(t4[i]));
        }
        assert(schedule_spec(mk, esp).0.tasks == t4);
    }
}


/// `ps` lists as many processes as the scheduler counts: the process list
/// and the task total agree in every well-formed state.
pub proof fn law_snapshot_counts_tasks(m: SchedulerModel)
    requires
        model_wf(m),
    ensures
        snapshot_spec(m).len() == stats_spec(m).total_tasks,
{
}


/// Killing a task other than the running one leaves the same task running:
/// after a kill answered `KilledNow`, the current position names the task
/// (by id) that was running before, the list is one shorter, and no task
/// with the killed pid is left.
pub proof fn law_kill_keeps_running_task(m: SchedulerModel, pid: usize)
    requires
        model_wf(m),
    ensures
        kill_spec(m, pid).1 == Ok::<KillTaskResult, &'static str>(KillTaskResult::KilledNow) ==> {
            let m2 = kill_spec(m, pid).0;
            &&& 0 <= m2.current < m2.tasks.len()
            &&& m2.tasks[m2.current].id == m.tasks[m.current].id
            &&& m2.tasks.len() + 1 == m.tasks.len()
            &&& forall|i: int| 0 <= i < m2.tasks.len() ==> (#[trigger] m2.tasks[i]).id.0 != pid
        },
{
    if kill_spec(m, pid).1 == Ok::<KillTaskResult, &'static str>(KillTaskResult::KilledNow) {
        let idx = pid_index(m.tasks, pid).unwrap();
        let t = m.tasks.remove(idx);
        let m2 = kill_spec(m, pid).0;
        assert(idx != m.current);
        assert(m2.tasks == t);
        if idx < m.current {
            assert(t[m.current - 1] == m.tasks[m.current]);
        } else {
            assert(t[m.current] == m.tasks[m.current]);
        }
        assert forall|i: int| 0 <= i < t.len() implies (#[trigger] t[i]).id.0 != pid by {
            let oi = if i < idx { i } else { i + 1 };
            assert(t[i] == m.tasks[oi]);
            assert(oi != idx);
            assert(m.tasks[oi].id != m.tasks[idx].id);
        }
    }
}

/// `(start + d) % n` for `0 <= start < n` and `0 <= d <= n`, without `%`.
proof fn lemma_cyclic_index(start: int, d: int, n: int)
    requires
        0 <= start < n,
        0 <= d <= n,
    ensures
        (start + d) % n == if start + d < n {
            start + d
        } else {
            start + d - n
        },
{
    if start + d < n {
        vstd::arithmetic::div_mod::lemma_small_mod((start + d) as nat, n as nat);
    } else {
        vstd::arithmetic::div_mod::lemma_small_mod((start + d - n) as nat, n as nat);
        vstd::arithmetic::div_mod::lemma_mod_multiples_vanish(1, start + d - n, n);
    }
}

/// How far `j` lies after `start` going round a list of `n`: 1 for the next
/// position, `n` for `start` itself.
pub open spec fn steps_after(start: int, j: int, n: int) -> int {
    if j > start {
        j - start
    } else {
        j - start + n
    }
}

proof fn lemma_ready_from_first(tasks: Seq<Task>, start: int, k: int) -> (kt: int)
    requires
        0 <= start < tasks.len(),
        1 <= k <= tasks.len() + 1,
    ensures
        ready_from(tasks, start, k) matches Some(i) ==> k <= kt <= tasks.len() && (start + kt) % (
        tasks.len() as int) == i && forall|d: int|
            k <= d < kt ==> !is_ready_task(#[trigger] tasks[(start + d) % (tasks.len() as int)]),
        ready_from(tasks, start, k) is None ==> forall|d: int|
            k <= d <= tasks.len() ==> !is_ready_task(#[trigger] tasks[(start + d) % (tasks.len() as int)]),
    decreases tasks.len() + 1 - k,
{
    let n = tasks.len() as int;
    if k <= n {
        if is_ready_task(tasks[(start + k) % n]) {
            k
        } else {
            let kt = lemma_ready_from_first(tasks, start, k + 1);
            kt
        }
    } else {
        k
    }
}

/// Round robin: the task picked after `start` is ready and is the first
/// ready one going round from `start + 1` (with `start` itself last): no
/// ready task lies strictly between them. When nothing is picked, no task
/// is ready.
pub proof fn law_round_robin_order(tasks: Seq<Task>, start: int)
    requires
        0 <= start < tasks.len(),
    ensures
        ready_after(tasks, start) matches Some(i) ==> 0 <= i < tasks.len() && is_ready_task(tasks[i])
            && forall|j: int|
            0 <= j < tasks.len() && steps_after(start, j, tasks.len() as int) < steps_after(
                start,
                i,
                tasks.len() as int,
            ) ==> !is_ready_task(#[trigger] tasks[j]),
        ready_after(tasks, start) is None ==> forall|j: int|
            0 <= j < tasks.len() ==> !is_ready_task(#[trigger] tasks[j]),
{
    let n = tasks.len() as int;
    let kt = lemma_ready_from_first(tasks, start, 1);
    match ready_after(tasks, start) {
        Some(i) => {
            lemma_cyclic_index(start, kt, n);
            lemma_ready_from_result(tasks, start, 1);
            assert(steps_after(start, i, n) == kt);
            assert forall|j: int|
                0 <= j < n && steps_after(start, j, n) < steps_after(start, i, n) implies !is_ready_task(
                #[trigger] tasks[j],
            ) by {
                let d = steps_after(start, j, n);
                lemma_cyclic_index(start, d, n);
                assert((start + d) % n == j);
                assert(!is_ready_task(tasks[(start + d) % n]));
            }
        },
        None => {
            assert forall|j: int| 0 <= j < n implies !is_ready_task(#[trigger] tasks[j]) by {
                let d = steps_after(start, j, n);
                lemma_cyclic_index(start, d, n);
                assert((start + d) % n == j);
                assert(!is_ready_task(tasks[(start + d) % n]));
            }
        },
    }
}

} // verus!
