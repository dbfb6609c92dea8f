//! The priority round-robin scheduler: task states, selection of the next
//! task, the per-tick bookkeeping (wake-ups, time slices, preemption),
//! sleeping, exiting, and registration of tasks including the idle task.
//!
//! Every operation is a state transition: it updates the scheduler and
//! reports which task is to run, and the caller performs the switch.
use vstd::prelude::*;
use crate::task::{Task, TaskStacks, FRAME_WORDS, STACK_SIZE, full_initial_stack, zero_stack};
use crate::tick::{TickCounter, ticks_after, ticks_elapsed};

verus! {

/// Number of task slots, the idle task's included.
pub const MAX_TASKS: usize = 8;

/// Ticks a task runs before it must give way to an equal-priority task.
pub const TIME_SLICE: u32 = 5;

/// Priority of the idle task, the lowest.
pub const IDLE_PRIORITY: u8 = 0;

/// A sleeping task is due once the tick count has passed its deadline by
/// less than this many ticks, which reads "now >= deadline" on a counter
/// that wraps around.
pub const WAKE_WINDOW: u32 = 0x8000_0000;

/// The life cycle of a task.
#[derive(Clone, Copy, PartialEq, Eq, Structural, Debug)]
pub enum TaskState {
    /// Waiting to be chosen.
    Ready,
    /// On the CPU.
    Running,
    /// Waiting for its wake-up tick.
    Sleeping,
    /// Exited; never scheduled again.
    Zombie,
}

/// The scheduler's record of one task.
#[derive(Clone, Copy, PartialEq, Eq, Structural, Debug)]
pub struct TaskEntry {
    pub task: Task,
    pub state: TaskState,
    /// Ticks left in the current time slice.
    pub remaining: u32,
    /// 0 is the lowest (idle), 255 the highest.
    pub priority: u8,
    /// Wake-up tick; meaningful only while Sleeping.
    pub sleep_until: u32,
}

/// The abstract state of the scheduler.
pub struct SchedView {
    pub slots: Seq<Option<TaskEntry>>,
    pub count: nat,
    pub current: nat,
    pub ticks: u32,
    pub stacks: Seq<Seq<u32>>,
}

/// The shape every reachable state has: `count` registered tasks in the
/// first slots, the rest empty, and `current` one of the registered tasks.
pub open spec fn inv(v: SchedView) -> bool {
    &&& v.slots.len() == MAX_TASKS
    &&& v.count <= MAX_TASKS
    &&& forall|i: int| 0 <= i < MAX_TASKS ==> (#[trigger] v.slots[i] is Some <==> i < v.count)
    &&& v.count == 0 ==> v.current == 0
    &&& v.count > 0 ==> v.current < v.count
}

/// The slot holds a Ready task.
pub open spec fn is_ready(o: Option<TaskEntry>) -> bool {
    o matches Some(e) && e.state == TaskState::Ready
}

/// The slot holds a task in state `s`.
pub open spec fn has_state(o: Option<TaskEntry>, s: TaskState) -> bool {
    o matches Some(e) && e.state == s
}

/// Priority of the task in the slot.
pub open spec fn prio(o: Option<TaskEntry>) -> u8 {
    o.unwrap().priority
}

/// Position of slot `i` in the round-robin order that starts just after
/// `cur`: 1 for the next slot, `n` for `cur` itself.
pub open spec fn rr_dist(cur: nat, i: nat, n: nat) -> int {
    if i > cur {
        i - cur
    } else {
        i + n - cur
    }
}

/// Slot `idx` is the task to run next: it is Ready, no Ready task has a
/// higher priority, and among the Ready tasks of its priority it is the
/// first after `cur` in round-robin order.
pub open spec fn selects(slots: Seq<Option<TaskEntry>>, n: nat, cur: nat, idx: nat) -> bool {
    &&& idx < n
    &&& is_ready(slots[idx as int])
    &&& forall|j: nat| j < n && is_ready(#[trigger] slots[j as int]) ==> prio(slots[j as int]) <= prio(slots[idx as int])
    &&& forall|j: nat|
        j < n && is_ready(#[trigger] slots[j as int]) && prio(slots[j as int]) == prio(slots[idx as int])
            ==> rr_dist(cur, idx, n) <= rr_dist(cur, j, n)
}

/// The task that the scheduler chooses in state `v`, if any task is Ready.
pub open spec fn spec_select_next(v: SchedView) -> Option<nat> {
    if exists|i: nat| selects(v.slots, v.count, v.current, i) {
        Some(choose|i: nat| selects(v.slots, v.count, v.current, i))
    } else {
        None
    }
}

/// `v` with task `idx` made the running task.
pub open spec fn run(v: SchedView, idx: nat) -> SchedView {
    SchedView {
        slots: v.slots.update(idx as int, Some(TaskEntry { state: TaskState::Running, ..v.slots[idx as int].unwrap() })),
        current: idx,
        ..v
    }
}

/// A sleeping task whose deadline `until` has been reached at tick `now`.
pub open spec fn wake_due(now: u32, until: u32) -> bool {
    ticks_elapsed(until, now) < WAKE_WINDOW
}

/// A slot after the wake-up check at tick `now`: a Sleeping task whose
/// deadline has come becomes Ready.
pub open spec fn wake(o: Option<TaskEntry>, now: u32) -> Option<TaskEntry> {
    match o {
        Some(e) => if e.state == TaskState::Sleeping && wake_due(now, e.sleep_until) {
            Some(TaskEntry { state: TaskState::Ready, ..e })
        } else {
            Some(e)
        },
        None => None,
    }
}

/// The slots after the wake-up check of the first `n` slots at tick `now`.
pub open spec fn woken(slots: Seq<Option<TaskEntry>>, n: nat, now: u32) -> Seq<Option<TaskEntry>> {
    Seq::new(slots.len(), |i: int| if i < n { wake(slots[i], now) } else { slots[i] })
}

/// Some Ready task among the first `n` slots has a priority above `p`.
pub open spec fn higher_ready(slots: Seq<Option<TaskEntry>>, n: nat, p: u8) -> bool {
    exists|i: int| 0 <= i < n && is_ready(#[trigger] slots[i]) && prio(slots[i]) > p
}

/// The remaining time slice after one tick has been used.
pub open spec fn slice_after_tick(remaining: u32) -> u32 {
    if remaining > 0 { (remaining - 1) as u32 } else { 0 }
}

/// One timer tick: the counter advances; due sleepers wake; the running
/// task's slice shrinks; if the slice ran out or a higher-priority task
/// is Ready, the current task goes back to Ready (with a fresh slice if
/// it ran out) and the selected task runs.
pub open spec fn spec_scheduler_tick(v: SchedView) -> SchedView {
    let now = ticks_after(v.ticks, 1);
    let cur = v.current as int;
    let s1 = woken(v.slots, v.count, now);
    let e = s1[cur].unwrap();
    let rem = slice_after_tick(e.remaining);
    let expired = rem == 0;
    let s2 = s1.update(cur, Some(TaskEntry { remaining: rem, ..e }));
    if !expired && !higher_ready(s2, v.count, e.priority) {
        SchedView { slots: s2, ticks: now, ..v }
    } else {
        let e3 = TaskEntry {
            state: if e.state == TaskState::Running { TaskState::Ready } else { e.state },
            remaining: if expired { TIME_SLICE } else { rem },
            ..e
        };
        let v3 = SchedView { slots: s2.update(cur, Some(e3)), ticks: now, ..v };
        match spec_select_next(v3) {
            Some(idx) => run(v3, idx),
            None => v3,
        }
    }
}

/// `v` with the current task (if there is one) made Sleeping until `n`
/// ticks from now, with a fresh slice for when it wakes.
pub open spec fn put_to_sleep(v: SchedView, n: u32) -> SchedView {
    let cur = v.current as int;
    match v.slots[cur] {
        Some(e) => SchedView {
            slots: v.slots.update(cur, Some(TaskEntry {
                state: TaskState::Sleeping,
                sleep_until: ticks_after(v.ticks, n),
                remaining: TIME_SLICE,
                ..e
            })),
            ..v
        },
        None => v,
    }
}

/// The current task goes to sleep for `n` ticks (nothing happens if `n`
/// is zero), and the selected task runs.
pub open spec fn spec_sleep_ticks(v: SchedView, n: u32) -> SchedView {
    if n == 0 {
        v
    } else {
        let v1 = put_to_sleep(v, n);
        match spec_select_next(v1) {
            Some(idx) => run(v1, idx),
            None => v1,
        }
    }
}

/// `v` with the current task (if there is one) made a Zombie with no
/// slice left.
pub open spec fn make_zombie(v: SchedView) -> SchedView {
    let cur = v.current as int;
    match v.slots[cur] {
        Some(e) => SchedView {
            slots: v.slots.update(cur, Some(TaskEntry { state: TaskState::Zombie, remaining: 0, ..e })),
            ..v
        },
        None => v,
    }
}

/// The current task exits: it becomes a Zombie, and the selected task
/// (highest priority first, then in turn after the exiting task) runs.
pub open spec fn spec_task_exit(v: SchedView) -> SchedView {
    let v1 = make_zombie(v);
    match spec_select_next(v1) {
        Some(idx) => run(v1, idx),
        None => v1,
    }
}

/// The entry of a newly registered task in slot `id`.
pub open spec fn new_entry(id: nat, priority: u8) -> TaskEntry {
    TaskEntry {
        task: Task { stack_id: id as usize, stack_ptr: (STACK_SIZE - FRAME_WORDS) as usize },
        state: TaskState::Ready,
        remaining: TIME_SLICE,
        priority,
        sleep_until: 0,
    }
}

/// A new Ready task with a full slice in the next slot, whose stack holds
/// a frame that resumes at `wrapper` with `arg` in r0.
pub open spec fn spec_add_task(v: SchedView, wrapper: usize, arg: usize, priority: u8) -> SchedView {
    SchedView {
        slots: v.slots.update(v.count as int, Some(new_entry(v.count, priority))),
        count: v.count + 1,
        stacks: v.stacks.update(v.count as int, full_initial_stack(wrapper as u32, arg as u32)),
        ..v
    }
}

/// Start-up: the idle task, at the lowest priority and resuming at
/// `idle_entry`, is registered after the user tasks, and the selected
/// task runs.
pub open spec fn spec_start(v: SchedView, idle_entry: usize) -> SchedView {
    let v1 = spec_add_task(v, idle_entry, 0, IDLE_PRIORITY);
    run(v1, spec_select_next(v1).unwrap())
}

proof fn lemma_rr_dist_injective(cur: nat, i: nat, j: nat, n: nat)
    requires
        cur < n,
        i < n,
        j < n,
        rr_dist(cur, i, n) == rr_dist(cur, j, n),
    ensures
        i == j,
{
}

proof fn lemma_selects_unique(slots: Seq<Option<TaskEntry>>, n: nat, cur: nat, i: nat, j: nat)
    requires
        cur < n,
        selects(slots, n, cur, i),
        selects(slots, n, cur, j),
    ensures
        i == j,
{
    assert(is_ready(slots[j as int]));
    assert(is_ready(slots[i as int]));
    lemma_rr_dist_injective(cur, i, j, n);
}

/// `(cur + i) % n` is the slot at round-robin position `i` after `cur`.
proof fn lemma_rr_index(cur: nat, i: nat, n: nat)
    requires
        cur < n,
        1 <= i <= n,
    ensures
        (cur + i) % n < n,
        rr_dist(cur, (cur + i) % n, n) == i,
{
    if cur + i < n {
        vstd::arithmetic::div_mod::lemma_small_mod((cur + i) as nat, n);
    } else {
        vstd::arithmetic::div_mod::lemma_small_mod((cur + i - n) as nat, n);
        vstd::arithmetic::div_mod::lemma_mod_add_multiples_vanish((cur + i - n) as int, n as int);
    }
}

/// The scheduler: task slots, the running task, the tick counter and the
/// task stacks.
pub struct Scheduler {
    slots: Vec<Option<TaskEntry>>,
    count: usize,
    current: usize,
    ticks: TickCounter,
    stacks: TaskStacks,
}

impl View for Scheduler {
    type V = SchedView;

    closed spec fn view(&self) -> SchedView {
        SchedView {
            slots: self.slots@,
            count: self.count as nat,
            current: self.current as nat,
            ticks: self.ticks@,
            stacks: self.stacks.stacks(),
        }
    }
}

impl Scheduler {
    /// The invariant: the abstract shape, every registered task owns the
    /// stack of its own slot with its saved frame at the full-frame
    /// offset, and one stack is handed out per registered task.
    pub closed spec fn wf(&self) -> bool {
        &&& inv(self@)
        &&& self.stacks.wf()
        &&& self.stacks.count() == self.count
        &&& forall|i: int|
            0 <= i < self.count ==> (#[trigger] self.slots@[i]).unwrap().task == (Task {
                stack_id: i as usize,
                stack_ptr: (STACK_SIZE - FRAME_WORDS) as usize,
            })
    }

    /// A well-formed scheduler has the abstract shape `inv`; its stack
    /// table has `MAX_TASKS` stacks of `STACK_SIZE` words, the unused ones
    /// all zeros; and every registered task owns the stack of its own slot
    /// with its saved frame at the full-frame offset.
    pub proof fn lemma_wf_inv(&self)
        requires
            self.wf(),
        ensures
            inv(self@),
            self@.stacks.len() == MAX_TASKS,
            forall|i: int| 0 <= i < MAX_TASKS ==> #[trigger] self@.stacks[i].len() == STACK_SIZE,
            forall|i: int| self@.count <= i < MAX_TASKS ==> #[trigger] self@.stacks[i] == zero_stack(),
            forall|i: int|
                0 <= i < self@.count ==> (#[trigger] self@.slots[i]).unwrap().task == (Task {
                    stack_id: i as usize,
                    stack_ptr: (STACK_SIZE - FRAME_WORDS) as usize,
                }),
    {
        self.stacks.lemma_wf_shape();
    }

    /// Replaces the entry of registered task `i` by `e`, which keeps its
    /// task control block.
    fn set_entry(&mut self, i: usize, e: TaskEntry)
        requires
            old(self).wf(),
            i < old(self)@.count,
            e.task == old(self)@.slots[i as int].unwrap().task,
        ensures
            final(self).wf(),
            final(self)@ == (SchedView { slots: old(self)@.slots.update(i as int, Some(e)), ..old(self)@ }),
    {
        self.slots[i] = Some(e);
        proof {
            assert(self@.slots == old(self)@.slots.update(i as int, Some(e)));
        }
    }

    /// Makes registered task `idx` the running task.
    fn run_task(&mut self, idx: usize)
        requires
            old(self).wf(),
            idx < old(self)@.count,
        ensures
            final(self).wf(),
            final(self)@ == run(old(self)@, idx as nat),
    {
        let e = self.slots[idx].unwrap();
        self.set_entry(idx, TaskEntry { state: TaskState::Running, ..e });
        self.current = idx;
    }

    /// Index of the task that is to run.
    pub fn current(&self) -> (c: usize)
        ensures
            c == self@.current,
    {
        self.current
    }

    /// Number of registered tasks, the idle task included once started.
    pub fn task_count(&self) -> (n: usize)
        ensures
            n == self@.count,
    {
        self.count
    }

    /// The scheduler's record of slot `i`.
    pub fn slot(&self, i: usize) -> (o: Option<TaskEntry>)
        requires
            self.wf(),
            i < MAX_TASKS,
        ensures
            o == self@.slots[i as int],
    {
        self.slots[i]
    }

    /// The current tick count.
    pub fn get_ticks(&self) -> (t: u32)
        ensures
            t == self@.ticks,
    {
        self.ticks.get_ticks()
    }

    /// Word `index` of the stack of task `id`.
    pub fn stack_word(&self, id: usize, index: usize) -> (w: u32)
        requires
            self.wf(),
            id < MAX_TASKS,
            index < STACK_SIZE,
        ensures
            w == self@.stacks[id as int][index as int],
    {
        self.stacks.stack_word(id, index)
    }

    /// The timer-tick step, run once per timer interrupt: advances the
    /// tick counter, wakes every Sleeping task whose deadline has come,
    /// uses up one tick of the current task's slice, and, when the slice
    /// has run out or a task of higher priority is Ready, puts the
    /// current task back to Ready and runs the selected task. Afterwards
    /// `current` names the task to resume.
    pub fn scheduler_tick(&mut self)
        requires
            old(self).wf(),
            old(self)@.count > 0,
        ensures
            final(self).wf(),
            final(self)@ == spec_scheduler_tick(old(self)@),
    {
        let ghost v = self@;
        self.ticks.tick_increment();
        let cur_tick = self.ticks.get_ticks();
        let n = self.count;
        // wake every sleeper whose deadline has come
        let mut i: usize = 0;
        assert(self@.slots =~= Seq::new(v.slots.len(), |k: int| if k < 0 { wake(v.slots[k], cur_tick) } else { v.slots[k] }));
        while i < n
            invariant
                self.wf(),
                i <= n,
                n == v.count,
                cur_tick == ticks_after(v.ticks, 1),
                self@ == (SchedView {
                    slots: Seq::new(v.slots.len(), |k: int| if k < i { wake(v.slots[k], cur_tick) } else { v.slots[k] }),
                    ticks: cur_tick,
                    ..v
                }),
            decreases n - i,
        {
            let ghost before = self@;
            if let Some(e) = self.slots[i] {
                if e.state == TaskState::Sleeping && cur_tick.wrapping_sub(e.sleep_until) < WAKE_WINDOW {
                    self.set_entry(i, TaskEntry { state: TaskState::Ready, ..e });
                }
            }
            i = i + 1;
            proof {
                assert(self@.slots =~= Seq::new(v.slots.len(), |k: int| if k < i { wake(v.slots[k], cur_tick) } else { v.slots[k] }));
            }
        }
        let ghost s1 = self@.slots;
        assert(s1 =~= woken(v.slots, v.count, cur_tick));
        // use up one tick of the current slice
        let cur = self.current;
        let e = self.slots[cur].unwrap();
        let rem = if e.remaining > 0 { e.remaining - 1 } else { 0 };
        self.set_entry(cur, TaskEntry { remaining: rem, ..e });
        let slice_expired = rem == 0;
        let cur_prio = e.priority;
        let ghost s2 = self@.slots;
        // is a task of higher priority Ready?
        let mut higher = false;
        let mut j: usize = 0;
        while j < n
            invariant
                self@.slots == s2,
                self@.count == n,
                s2.len() == MAX_TASKS,
                n <= MAX_TASKS,
                j <= n,
                higher <==> exists|k: int| 0 <= k < j && is_ready(#[trigger] s2[k]) && prio(s2[k]) > cur_prio,
            decreases n - j,
        {
            if let Some(x) = self.slots[j] {
                if x.state == TaskState::Ready && x.priority > cur_prio {
                    higher = true;
                }
            }
            j = j + 1;
        }
        assert(higher == higher_ready(s2, v.count, cur_prio));
        if !slice_expired && !higher {
            return;
        }
        // the current task goes back to Ready
        let e2 = self.slots[cur].unwrap();
        let new_state = if e2.state == TaskState::Running { TaskState::Ready } else { e2.state };
        let new_rem = if slice_expired { TIME_SLICE } else { e2.remaining };
        self.set_entry(cur, TaskEntry { state: new_state, remaining: new_rem, ..e2 });
        // run the selected task
        if let Some(next) = select_next(self) {
            self.run_task(next);
        }
    }

    /// Puts the current task to sleep for `n` ticks (nothing happens when
    /// `n` is zero): it becomes Sleeping until tick `now + n` (wrapping)
    /// with a fresh slice for when it wakes, and the selected task runs.
    /// Returns the task to switch to; the caller saves the old current
    /// task's context and restores that one's.
    pub fn sleep_ticks(&mut self, n: u32) -> (next: Option<usize>)
        requires
            old(self).wf(),
        ensures
            final(self).wf(),
            final(self)@ == spec_sleep_ticks(old(self)@, n),
            n == 0 ==> next is None,
            n != 0 ==> next == (match spec_select_next(put_to_sleep(old(self)@, n)) {
                Some(i) => Some(i as usize),
                None => None::<usize>,
            }),
            next matches Some(i) ==> final(self)@.current == i,
            next is None ==> final(self)@.current == old(self)@.current,
    {
        if n == 0 {
            return None;
        }
        let cur = self.current;
        if let Some(e) = self.slots[cur] {
            let until = self.ticks.get_ticks().wrapping_add(n);
            self.set_entry(cur, TaskEntry { state: TaskState::Sleeping, sleep_until: until, remaining: TIME_SLICE, ..e });
        }
        let r = select_next(self);
        if let Some(next) = r {
            self.run_task(next);
        }
        r
    }

    /// The current task exits: it becomes a Zombie with no slice left and
    /// is never scheduled again. The selected task runs: the highest
    /// priority among the Ready tasks, and among those the first after the
    /// exiting task in turn. The caller restores it without saving the
    /// exiting task. `None` when no task is Ready (the caller then waits
    /// for interrupts).
    pub fn task_exit(&mut self) -> (next: Option<usize>)
        requires
            old(self).wf(),
        ensures
            final(self).wf(),
            final(self)@ == spec_task_exit(old(self)@),
            next == (match spec_select_next(make_zombie(old(self)@)) {
                Some(i) => Some(i as usize),
                None => None::<usize>,
            }),
            next matches Some(i) ==> final(self)@.current == i
                && selects(make_zombie(old(self)@).slots, old(self)@.count, old(self)@.current, i as nat),
            next is None <==> !(exists|i: int|
                0 <= i < old(self)@.count && is_ready(#[trigger] make_zombie(old(self)@).slots[i])),
            next is None ==> final(self)@.current == old(self)@.current,
    {
        let ghost v = self@;
        let cur = self.current;
        if let Some(e) = self.slots[cur] {
            self.set_entry(cur, TaskEntry { state: TaskState::Zombie, remaining: 0, ..e });
        }
        assert(self@.slots =~= make_zombie(v).slots);
        assert(self@ == make_zombie(v));
        let r = select_next(self);
        if let Some(next) = r {
            self.run_task(next);
        }
        r
    }

    /// Registers a task in the next slot: Ready, with a full slice, and a
    /// stack whose initial frame resumes at `wrapper` with `entry` in r0
    /// (the wrapper calls the entry and makes the task exit if it
    /// returns). The last slot stays reserved for the idle task.
    pub fn add_task(&mut self, wrapper: usize, entry: usize, priority: u8)
        requires
            old(self).wf(),
            old(self)@.count < MAX_TASKS - 1,
        ensures
            final(self).wf(),
            final(self)@ == spec_add_task(old(self)@, wrapper, entry, priority),
    {
        self.push_task(wrapper, entry, priority);
    }

    fn push_task(&mut self, wrapper: usize, arg: usize, priority: u8)
        requires
            old(self).wf(),
            old(self)@.count < MAX_TASKS,
        ensures
            final(self).wf(),
            final(self)@ == spec_add_task(old(self)@, wrapper, arg, priority),
    {
        let id = self.count;
        let t = self.stacks.create_task_with_arg(wrapper, arg);
        self.slots[id] = Some(TaskEntry {
            task: t,
            state: TaskState::Ready,
            remaining: TIME_SLICE,
            priority,
            sleep_until: 0,
        });
        self.count = id + 1;
        proof {
            assert(self@.slots =~= spec_add_task(old(self)@, wrapper, arg, priority).slots);
        }
    }

    /// Starts scheduling: registers the idle task (lowest priority,
    /// always Ready, resuming at `idle_entry`) after the user tasks and
    /// runs the selected task, whose index is returned for the caller to
    /// restore. Some task is always Ready here, the idle task at least.
    pub fn start(&mut self, idle_entry: usize) -> (first: usize)
        requires
            old(self).wf(),
            old(self)@.count < MAX_TASKS,
        ensures
            final(self).wf(),
            final(self)@ == spec_start(old(self)@, idle_entry),
            first == final(self)@.current,
            selects(
                spec_add_task(old(self)@, idle_entry, 0, IDLE_PRIORITY).slots,
                old(self)@.count + 1,
                spec_add_task(old(self)@, idle_entry, 0, IDLE_PRIORITY).current,
                first as nat,
            ),
    {
        let idle_id = self.count;
        self.push_task(idle_entry, 0, IDLE_PRIORITY);
        assert(is_ready(self@.slots[idle_id as int]));
        match select_next(self) {
            Some(idx) => {
                self.run_task(idx);
                idx
            },
            None => {
                proof {
                    assert(false);
                }
                0
            },
        }
    }

    /// An empty scheduler at tick zero.
    pub fn new() -> (s: Self)
        ensures
            s.wf(),
            s@.count == 0,
            s@.current == 0,
            s@.ticks == 0,
            s@.slots == Seq::new(MAX_TASKS as nat, |i: int| None::<TaskEntry>),
    {
        let mut slots: Vec<Option<TaskEntry>> = Vec::new();
        let mut i: usize = 0;
        while i < MAX_TASKS
            invariant
                i <= MAX_TASKS,
                slots@ == Seq::new(i as nat, |k: int| None::<TaskEntry>),
            decreases MAX_TASKS - i,
        {
            slots.push(None);
            i = i + 1;
        }
        Scheduler { slots, count: 0, current: 0, ticks: TickCounter::new(), stacks: TaskStacks::new() }
    }
}

/// Chooses the next task to run: the highest priority among the Ready
/// tasks, and among those of that priority the first after the current
/// task in round-robin order, so that equal priorities take turns.
/// `None` exactly when no task is Ready.
pub fn select_next(sched: &mut Scheduler) -> (r: Option<usize>)
    requires
        old(sched).wf(),
    ensures
        *final(sched) == *old(sched),
        r == (match spec_select_next(old(sched)@) {
            Some(i) => Some(i as usize),
            None => None::<usize>,
        }),
        r is None <==> !(exists|i: int| 0 <= i < old(sched)@.count && is_ready(#[trigger] old(sched)@.slots[i])),
        r matches Some(idx) ==> selects(old(sched)@.slots, old(sched)@.count, old(sched)@.current, idx as nat),
{
    let n = sched.count;
    let cur = sched.current;
    let ghost v = sched@;
    // the highest priority among the Ready tasks
    let mut max_prio: Option<u8> = None;
    let mut i: usize = 0;
    while i < n
        invariant
            sched@ == v,
            sched.wf(),
            n == v.count,
            i <= n,
            max_prio is None <==> !(exists|j: int| 0 <= j < i && is_ready(#[trigger] v.slots[j])),
            max_prio matches Some(m) ==> (exists|j: int| 0 <= j < i && is_ready(#[trigger] v.slots[j]) && prio(v.slots[j]) == m),
            max_prio matches Some(m) ==> (forall|j: int| 0 <= j < i && is_ready(#[trigger] v.slots[j]) ==> prio(v.slots[j]) <= m),
        decreases n - i,
    {
        if let Some(e) = sched.slots[i] {
            if e.state == TaskState::Ready {
                match max_prio {
                    None => { max_prio = Some(e.priority); },
                    Some(m) => {
                        if e.priority > m {
                            max_prio = Some(e.priority);
                        }
                    },
                }
            }
        }
        i = i + 1;
    }
    let max_prio = match max_prio {
        None => {
            proof {
                if exists|k: nat| selects(v.slots, v.count, v.current, k) {
                    let k = choose|k: nat| selects(v.slots, v.count, v.current, k);
                    assert(is_ready(v.slots[k as int]));
                }
            }
            return None;
        },
        Some(m) => m,
    };
    let ghost witness = choose|j: int| 0 <= j < n && is_ready(#[trigger] v.slots[j]) && prio(v.slots[j]) == max_prio;
    // round-robin among the tasks of that priority, starting after `cur`
    let mut i: usize = 1;
    while i <= n
        invariant
            sched@ == v,
            sched.wf(),
            n == v.count,
            cur == v.current,
            n > 0,
            cur < n,
            1 <= i <= n + 1,
            0 <= witness < n,
            is_ready(v.slots[witness]),
            prio(v.slots[witness]) == max_prio,
            forall|j: int| 0 <= j < n && is_ready(#[trigger] v.slots[j]) ==> prio(v.slots[j]) <= max_prio,
            forall|j: nat|
                j < n && rr_dist(cur as nat, j, n as nat) < i ==> !(is_ready(#[trigger] v.slots[j as int]) && prio(v.slots[j as int]) == max_prio),
        decreases n + 1 - i,
    {
        let idx = (cur + i) % n;
        proof {
            lemma_rr_index(cur as nat, i as nat, n as nat);
        }
        if let Some(e) = sched.slots[idx] {
            if e.state == TaskState::Ready && e.priority == max_prio {
                proof {
                    assert(selects(v.slots, v.count, v.current, idx as nat));
                    let k = choose|k: nat| selects(v.slots, v.count, v.current, k);
                    lemma_selects_unique(v.slots, v.count, v.current, idx as nat, k);
                }
                return Some(idx);
            }
        }
        i = i + 1;
    }
    proof {
        assert(rr_dist(cur as nat, witness as nat, n as nat) <= n);
    }
    None
}

} // verus!
