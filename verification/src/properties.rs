//! Properties that hold across the scheduler's operations: at most one
//! task runs, the running task has the highest Ready priority, sleepers
//! wake on time across counter wrap-around, exited tasks stay exited, and
//! an expired slice hands the CPU to another task of equal priority.
use vstd::prelude::*;
use crate::scheduler::{
    SchedView, TaskEntry, TaskState, inv, is_ready, has_state, prio, rr_dist, selects, spec_select_next,
    spec_scheduler_tick, spec_sleep_ticks, spec_task_exit, spec_add_task, spec_start, woken, wake_due,
    higher_ready, run, slice_after_tick, IDLE_PRIORITY, TIME_SLICE,
};
use crate::tick::ticks_after;

verus! {

/// At most one registered task is Running, and it is the current task.
pub open spec fn single_running(v: SchedView) -> bool {
    forall|i: int| 0 <= i < v.count && has_state(#[trigger] v.slots[i], TaskState::Running) ==> i == v.current
}

/// No registered task is Running.
pub open spec fn none_running(v: SchedView) -> bool {
    forall|i: int| 0 <= i < v.count ==> !has_state(#[trigger] v.slots[i], TaskState::Running)
}

/// If the current task is Running, no Ready task has a higher priority.
pub open spec fn runs_highest(v: SchedView) -> bool {
    has_state(v.slots[v.current as int], TaskState::Running) ==> forall|i: int|
        0 <= i < v.count && is_ready(#[trigger] v.slots[i]) ==> prio(v.slots[i]) <= prio(v.slots[v.current as int])
}

proof fn lemma_select_some(v: SchedView)
    requires
        inv(v),
        exists|i: int| 0 <= i < v.count && is_ready(#[trigger] v.slots[i]),
    ensures
        spec_select_next(v) matches Some(idx) && selects(v.slots, v.count, v.current, idx),
{
    let i = choose|i: int| 0 <= i < v.count && is_ready(#[trigger] v.slots[i]);
    lemma_exists_selects(v.slots, v.count, v.current, i as nat);
}

/// Whenever some task is Ready, one of them is selected.
proof fn lemma_exists_selects(slots: Seq<Option<TaskEntry>>, n: nat, cur: nat, r: nat)
    requires
        cur < n,
        r < n,
        is_ready(slots[r as int]),
    ensures
        exists|idx: nat| selects(slots, n, cur, idx),
{
    // a Ready task of the highest priority
    let top = lemma_max_ready(slots, n, n, r);
    // among those, the nearest in round-robin order
    let best = lemma_nearest_with_prio(slots, n, cur, prio(slots[top as int]), top, (n + 1) as nat);
    assert(selects(slots, n, cur, best));
}

/// Some Ready task among the first `k` slots has the highest priority
/// among them.
proof fn lemma_max_ready(slots: Seq<Option<TaskEntry>>, n: nat, k: nat, r: nat) -> (top: nat)
    requires
        k <= n,
        r < k,
        is_ready(slots[r as int]),
    ensures
        top < k,
        is_ready(slots[top as int]),
        forall|j: nat| j < k && is_ready(#[trigger] slots[j as int]) ==> prio(slots[j as int]) <= prio(slots[top as int]),
    decreases k,
{
    let last = (k - 1) as nat;
    if r < last {
        let t = lemma_max_ready(slots, n, last, r);
        if is_ready(slots[last as int]) && prio(slots[last as int]) > prio(slots[t as int]) {
            last
        } else {
            t
        }
    } else if exists|j: nat| j < last && is_ready(#[trigger] slots[j as int]) {
        let j = choose|j: nat| j < last && is_ready(#[trigger] slots[j as int]);
        let t = lemma_max_ready(slots, n, last, j);
        if prio(slots[last as int]) > prio(slots[t as int]) {
            last
        } else {
            t
        }
    } else {
        r
    }
}

/// Among the Ready tasks of priority `p`, one is nearest after `cur`.
proof fn lemma_nearest_with_prio(slots: Seq<Option<TaskEntry>>, n: nat, cur: nat, p: u8, w: nat, d: nat) -> (best: nat)
    requires
        cur < n,
        w < n,
        is_ready(slots[w as int]),
        prio(slots[w as int]) == p,
        rr_dist(cur, w, n) < d,
    ensures
        best < n,
        is_ready(slots[best as int]),
        prio(slots[best as int]) == p,
        forall|j: nat|
            j < n && is_ready(#[trigger] slots[j as int]) && prio(slots[j as int]) == p ==> rr_dist(cur, best, n) <= rr_dist(cur, j, n),
    decreases d,
{
    if exists|j: nat| j < n && is_ready(#[trigger] slots[j as int]) && prio(slots[j as int]) == p && rr_dist(cur, j, n) < rr_dist(cur, w, n) {
        let j = choose|j: nat| j < n && is_ready(#[trigger] slots[j as int]) && prio(slots[j as int]) == p && rr_dist(cur, j, n) < rr_dist(cur, w, n);
        lemma_nearest_with_prio(slots, n, cur, p, j, rr_dist(cur, w, n) as nat)
    } else {
        w
    }
}

/// The state a tick hands to the selection when it switches: the tick
/// counter advanced, sleepers woken, and the current task back to Ready
/// (if it was Running) with its slice renewed if it ran out.
spec fn tick_handoff(v: SchedView) -> SchedView {
    let now = ticks_after(v.ticks, 1);
    let cur = v.current as int;
    let s1 = woken(v.slots, v.count, now);
    let e = s1[cur].unwrap();
    let rem = slice_after_tick(e.remaining);
    let expired = rem == 0;
    let s2 = s1.update(cur, Some(TaskEntry { remaining: rem, ..e }));
    let e3 = TaskEntry {
        state: if e.state == TaskState::Running { TaskState::Ready } else { e.state },
        remaining: if expired { crate::scheduler::TIME_SLICE } else { rem },
        ..e
    };
    SchedView { slots: s2.update(cur, Some(e3)), ticks: now, ..v }
}

proof fn lemma_tick_switch(v: SchedView)
    requires
        inv(v),
        v.count > 0,
        has_state(v.slots[v.current as int], TaskState::Running),
        ({
            let now = ticks_after(v.ticks, 1);
            let s1 = woken(v.slots, v.count, now);
            let e = s1[v.current as int].unwrap();
            e.remaining <= 1 || higher_ready(
                s1.update(v.current as int, Some(TaskEntry { remaining: slice_after_tick(e.remaining), ..e })),
                v.count,
                e.priority,
            )
        }),
    ensures
        inv(tick_handoff(v)),
        is_ready(tick_handoff(v).slots[v.current as int]),
        spec_select_next(tick_handoff(v)) matches Some(idx) && selects(
            tick_handoff(v).slots,
            v.count,
            v.current,
            idx,
        ) && spec_scheduler_tick(v) == run(tick_handoff(v), idx),
{
    let v3 = tick_handoff(v);
    assert(is_ready(v3.slots[v.current as int]));
    lemma_select_some(v3);
}

/// A timer tick keeps the scheduler's shape, and keeps at most one task
/// Running, the current one.
pub proof fn law_tick_single_running(v: SchedView)
    requires
        inv(v),
        v.count > 0,
        single_running(v),
    ensures
        inv(spec_scheduler_tick(v)),
        single_running(spec_scheduler_tick(v)),
{
}

/// After a timer tick, a Running current task has a priority at least as
/// high as every Ready task: a higher-priority task that is Ready,
/// including one that woke at this tick, preempts at once.
pub proof fn law_tick_runs_highest(v: SchedView)
    requires
        inv(v),
        v.count > 0,
    ensures
        runs_highest(spec_scheduler_tick(v)),
{
}

/// A timer tick leaves no task asleep past its deadline: a task still
/// Sleeping afterwards was Sleeping before, with the same deadline, and
/// that deadline has not come at the new tick count.
pub proof fn law_tick_wakes_due_sleepers(v: SchedView)
    requires
        inv(v),
        v.count > 0,
    ensures
        forall|i: int|
            0 <= i < v.count && has_state(#[trigger] spec_scheduler_tick(v).slots[i], TaskState::Sleeping) ==> {
                &&& has_state(v.slots[i], TaskState::Sleeping)
                &&& spec_scheduler_tick(v).slots[i].unwrap().sleep_until == v.slots[i].unwrap().sleep_until
                &&& !wake_due(spec_scheduler_tick(v).ticks, v.slots[i].unwrap().sleep_until)
            },
{
}

/// A timer tick never revives an exited task.
pub proof fn law_tick_keeps_zombies(v: SchedView)
    requires
        inv(v),
        v.count > 0,
    ensures
        forall|i: int|
            0 <= i < v.count && has_state(#[trigger] v.slots[i], TaskState::Zombie) ==> has_state(
                spec_scheduler_tick(v).slots[i],
                TaskState::Zombie,
            ),
{
}

/// When the running task's slice runs out while another task of at least
/// its priority is Ready, the tick hands the CPU to another task: equal
/// priorities take turns.
pub proof fn law_slice_expiry_rotates(v: SchedView, j: int)
    requires
        inv(v),
        v.count > 0,
        has_state(v.slots[v.current as int], TaskState::Running),
        v.slots[v.current as int].unwrap().remaining <= 1,
        0 <= j < v.count,
        j != v.current,
        is_ready(v.slots[j]),
        prio(v.slots[j]) >= prio(v.slots[v.current as int]),
    ensures
        spec_scheduler_tick(v).current != v.current,
        has_state(spec_scheduler_tick(v).slots[spec_scheduler_tick(v).current as int], TaskState::Running),
{
    lemma_tick_switch(v);
    let v3 = tick_handoff(v);
    let idx = spec_select_next(v3).unwrap();
    assert(is_ready(v3.slots[j]));
    if idx == v.current {
        assert(rr_dist(v.current, j as nat, v.count) < v.count);
    }
}

/// While its slice lasts and no task of higher priority is Ready after
/// the wake-up check, the running task keeps the CPU and uses up one
/// tick of its slice.
pub proof fn law_slice_keeps_running(v: SchedView)
    requires
        inv(v),
        v.count > 0,
        has_state(v.slots[v.current as int], TaskState::Running),
        v.slots[v.current as int].unwrap().remaining > 1,
        !higher_ready(
            woken(v.slots, v.count, spec_scheduler_tick(v).ticks),
            v.count,
            prio(v.slots[v.current as int]),
        ),
    ensures
        spec_scheduler_tick(v).current == v.current,
        has_state(spec_scheduler_tick(v).slots[v.current as int], TaskState::Running),
        spec_scheduler_tick(v).slots[v.current as int].unwrap().remaining == v.slots[v.current as int].unwrap().remaining - 1,
{
}

/// A sleeper of higher priority than the running task preempts it at the
/// very tick its deadline comes: afterwards the running task has at least
/// the sleeper's priority.
pub proof fn law_due_sleeper_preempts(v: SchedView, j: int)
    requires
        inv(v),
        v.count > 0,
        has_state(v.slots[v.current as int], TaskState::Running),
        0 <= j < v.count,
        has_state(v.slots[j], TaskState::Sleeping),
        wake_due(spec_scheduler_tick(v).ticks, v.slots[j].unwrap().sleep_until),
        prio(v.slots[j]) > prio(v.slots[v.current as int]),
    ensures
        has_state(spec_scheduler_tick(v).slots[spec_scheduler_tick(v).current as int], TaskState::Running),
        prio(spec_scheduler_tick(v).slots[spec_scheduler_tick(v).current as int]) >= prio(v.slots[j]),
{
    let now = ticks_after(v.ticks, 1);
    let s1 = woken(v.slots, v.count, now);
    let e = s1[v.current as int].unwrap();
    let s2 = s1.update(v.current as int, Some(TaskEntry { remaining: slice_after_tick(e.remaining), ..e }));
    assert(is_ready(s2[j]));
    lemma_tick_switch(v);
    let v3 = tick_handoff(v);
    assert(is_ready(v3.slots[j]));
}

/// Sleeping keeps the scheduler's shape and keeps at most one task
/// Running, the current one.
pub proof fn law_sleep_single_running(v: SchedView, n: u32)
    requires
        inv(v),
        single_running(v),
    ensures
        inv(spec_sleep_ticks(v, n)),
        single_running(spec_sleep_ticks(v, n)),
{
}

/// The task that runs after a sleep has the highest priority among the
/// Ready tasks.
pub proof fn law_sleep_runs_highest(v: SchedView, n: u32)
    requires
        inv(v),
        runs_highest(v),
    ensures
        runs_highest(spec_sleep_ticks(v, n)),
{
}

/// A task that sleeps for `n > 0` ticks is Sleeping until `n` ticks from
/// now with a fresh slice, and gives up the CPU whenever another task is
/// Ready; no other exited task is revived.
pub proof fn law_sleep_gives_up_cpu(v: SchedView, n: u32, j: int)
    requires
        inv(v),
        v.count > 0,
        n > 0,
        0 <= j < v.count,
        j != v.current,
        is_ready(v.slots[j]),
    ensures
        has_state(spec_sleep_ticks(v, n).slots[v.current as int], TaskState::Sleeping),
        spec_sleep_ticks(v, n).slots[v.current as int].unwrap().sleep_until == ticks_after(v.ticks, n),
        spec_sleep_ticks(v, n).slots[v.current as int].unwrap().remaining == crate::scheduler::TIME_SLICE,
        spec_sleep_ticks(v, n).current != v.current,
        has_state(spec_sleep_ticks(v, n).slots[spec_sleep_ticks(v, n).current as int], TaskState::Running),
        forall|i: int|
            0 <= i < v.count && i != v.current && has_state(#[trigger] v.slots[i], TaskState::Zombie) ==> has_state(
                spec_sleep_ticks(v, n).slots[i],
                TaskState::Zombie,
            ),
{
    let v1 = crate::scheduler::put_to_sleep(v, n);
    assert(is_ready(v1.slots[j]));
    lemma_select_some(v1);
}

/// An exiting task becomes a Zombie and stays out of the running; every
/// other exited task stays exited; at most one task is Running, the
/// current one, and it has the highest priority among the Ready tasks.
pub proof fn law_exit_retires_task(v: SchedView)
    requires
        inv(v),
        v.count > 0,
        single_running(v),
    ensures
        inv(spec_task_exit(v)),
        single_running(spec_task_exit(v)),
        runs_highest(spec_task_exit(v)),
        has_state(spec_task_exit(v).slots[v.current as int], TaskState::Zombie),
        forall|i: int|
            0 <= i < v.count && has_state(#[trigger] v.slots[i], TaskState::Zombie) ==> has_state(
                spec_task_exit(v).slots[i],
                TaskState::Zombie,
            ),
{
}

/// An exiting task hands the CPU over whenever another task is Ready.
pub proof fn law_exit_hands_over(v: SchedView, j: int)
    requires
        inv(v),
        v.count > 0,
        0 <= j < v.count,
        j != v.current,
        is_ready(v.slots[j]),
    ensures
        spec_task_exit(v).current != v.current,
        has_state(spec_task_exit(v).slots[spec_task_exit(v).current as int], TaskState::Running),
{
    let v1 = crate::scheduler::make_zombie(v);
    assert(is_ready(v1.slots[j]));
    lemma_select_some(v1);
}

/// Registering a task adds a Ready task and changes no other task.
pub proof fn law_add_task_appends(v: SchedView, wrapper: usize, entry: usize, priority: u8)
    requires
        inv(v),
        v.count < crate::scheduler::MAX_TASKS,
        v.stacks.len() == crate::scheduler::MAX_TASKS,
        single_running(v),
    ensures
        inv(spec_add_task(v, wrapper, entry, priority)),
        single_running(spec_add_task(v, wrapper, entry, priority)),
        is_ready(spec_add_task(v, wrapper, entry, priority).slots[v.count as int]),
        prio(spec_add_task(v, wrapper, entry, priority).slots[v.count as int]) == priority,
        forall|i: int| 0 <= i < v.count ==> spec_add_task(v, wrapper, entry, priority).slots[i] == v.slots[i],
        spec_add_task(v, wrapper, entry, priority).slots[v.count as int] == Some(TaskEntry {
            task: crate::task::Task {
                stack_id: v.count as usize,
                stack_ptr: (crate::task::STACK_SIZE - crate::task::FRAME_WORDS) as usize,
            },
            state: TaskState::Ready,
            remaining: TIME_SLICE,
            priority,
            sleep_until: 0,
        }),
        spec_add_task(v, wrapper, entry, priority).count == v.count + 1,
        spec_add_task(v, wrapper, entry, priority).current == v.current,
        spec_add_task(v, wrapper, entry, priority).ticks == v.ticks,
        spec_add_task(v, wrapper, entry, priority).stacks[v.count as int] == crate::task::full_initial_stack(
            wrapper as u32,
            entry as u32,
        ),
        forall|i: int|
            0 <= i < v.stacks.len() && i != v.count ==> #[trigger] spec_add_task(v, wrapper, entry, priority).stacks[i]
                == v.stacks[i],
{
}

/// Starting from a scheduler where nothing runs yet, exactly the current
/// task runs afterwards, it has the highest Ready priority, and the idle
/// task of the lowest priority sits in the last registered slot.
pub proof fn law_start_runs_one(v: SchedView, idle_entry: usize)
    requires
        inv(v),
        v.count < crate::scheduler::MAX_TASKS,
        none_running(v),
    ensures
        inv(spec_start(v, idle_entry)),
        single_running(spec_start(v, idle_entry)),
        has_state(spec_start(v, idle_entry).slots[spec_start(v, idle_entry).current as int], TaskState::Running),
        runs_highest(spec_start(v, idle_entry)),
        spec_start(v, idle_entry).slots[v.count as int].unwrap().priority == IDLE_PRIORITY,
        spec_start(v, idle_entry).count == v.count + 1,
        forall|j: int|
            0 <= j <= v.count && j != spec_start(v, idle_entry).current && (j == v.count || is_ready(
                #[trigger] v.slots[j],
            )) && prio(spec_start(v, idle_entry).slots[j]) == prio(
                spec_start(v, idle_entry).slots[spec_start(v, idle_entry).current as int],
            ) ==> rr_dist(v.current, spec_start(v, idle_entry).current, v.count + 1) < rr_dist(
                v.current,
                j as nat,
                v.count + 1,
            ),
        forall|i: int|
            0 <= i < v.count && i != spec_start(v, idle_entry).current ==> #[trigger] spec_start(v, idle_entry).slots[i]
                == v.slots[i],
{
    let v1 = spec_add_task(v, idle_entry, 0, IDLE_PRIORITY);
    assert(is_ready(v1.slots[v.count as int]));
    lemma_select_some(v1);
}

/// On the wrapping tick counter, a task that sleeps `n` ticks
/// (0 < n < 2^31) from tick `start` is due `k` ticks later (k < 2^31)
/// exactly when `k >= n`, even when the counter wraps in between.
pub proof fn law_sleep_deadline_wraps(start: u32, n: u32, k: u32)
    requires
        n < crate::scheduler::WAKE_WINDOW,
        k < crate::scheduler::WAKE_WINDOW,
    ensures
        wake_due(ticks_after(start, k), ticks_after(start, n)) <==> k >= n,
{
}

/// Slot `i` of `w` holds the same task as slot `i` of `v`, with the same
/// priority and deadline.
pub open spec fn same_task(v: SchedView, w: SchedView, i: int) -> bool {
    &&& v.slots[i] is Some
    &&& w.slots[i] is Some
    &&& w.slots[i].unwrap().task == v.slots[i].unwrap().task
    &&& w.slots[i].unwrap().priority == v.slots[i].unwrap().priority
    &&& w.slots[i].unwrap().sleep_until == v.slots[i].unwrap().sleep_until
}

/// Task `k` is the one that turn order picks after the task `v.current`
/// among the tasks Ready in `v` other than `v.current`: no such task has
/// a higher priority, and of those with its priority it comes first after
/// `v.current`.
pub open spec fn picked_in_turn(v: SchedView, k: int) -> bool {
    &&& 0 <= k < v.count
    &&& k != v.current
    &&& is_ready(v.slots[k])
    &&& forall|j: int|
        0 <= j < v.count && j != v.current && is_ready(#[trigger] v.slots[j]) ==> {
            &&& prio(v.slots[j]) <= prio(v.slots[k])
            &&& prio(v.slots[j]) == prio(v.slots[k]) ==> rr_dist(v.current, k as nat, v.count) <= rr_dist(
                v.current,
                j as nat,
                v.count,
            )
        }
}

/// Some task other than the current one is Ready.
pub open spec fn other_ready(v: SchedView) -> bool {
    exists|j: int| 0 <= j < v.count && j != v.current && is_ready(#[trigger] v.slots[j])
}

/// A timer tick keeps every registered task's identity: the same control
/// block, priority and deadline, with only its state and slice free to
/// change; the tick count advances by one and nothing else changes.
pub proof fn law_tick_keeps_tasks(v: SchedView)
    requires
        inv(v),
        v.count > 0,
    ensures
        spec_scheduler_tick(v).count == v.count,
        spec_scheduler_tick(v).stacks == v.stacks,
        spec_scheduler_tick(v).ticks == ticks_after(v.ticks, 1),
        forall|i: int| 0 <= i < v.count ==> #[trigger] same_task(v, spec_scheduler_tick(v), i),
        forall|i: int| v.count <= i < v.slots.len() ==> #[trigger] spec_scheduler_tick(v).slots[i] == v.slots[i],
{
}

/// A timer tick changes the state of a task other than the old and the
/// new current task only by waking it: it becomes Ready exactly when it
/// was Sleeping and its deadline has come, and its slice is untouched.
pub proof fn law_tick_only_wakes_others(v: SchedView)
    requires
        inv(v),
        v.count > 0,
    ensures
        forall|i: int|
            0 <= i < v.count && i != v.current && i != spec_scheduler_tick(v).current ==> {
                let e = v.slots[i].unwrap();
                let f = (#[trigger] spec_scheduler_tick(v).slots[i]).unwrap();
                &&& f.remaining == e.remaining
                &&& f.state == (if e.state == TaskState::Sleeping && wake_due(spec_scheduler_tick(v).ticks, e.sleep_until) {
                    TaskState::Ready
                } else {
                    e.state
                })
            },
{
}

/// When a tick switches tasks, the new task runs, has the highest
/// priority among the Ready tasks, and among the Ready tasks of its
/// priority it is the first after the old current task in turn.
pub proof fn law_tick_switches_in_turn(v: SchedView)
    requires
        inv(v),
        v.count > 0,
        spec_scheduler_tick(v).current != v.current,
    ensures
        has_state(spec_scheduler_tick(v).slots[spec_scheduler_tick(v).current as int], TaskState::Running),
        spec_scheduler_tick(v).slots[spec_scheduler_tick(v).current as int].unwrap().remaining
            == v.slots[spec_scheduler_tick(v).current as int].unwrap().remaining,
        is_ready(v.slots[spec_scheduler_tick(v).current as int]) || (has_state(
            v.slots[spec_scheduler_tick(v).current as int],
            TaskState::Sleeping,
        ) && wake_due(ticks_after(v.ticks, 1), v.slots[spec_scheduler_tick(v).current as int].unwrap().sleep_until)),
        forall|j: int|
            0 <= j < v.count && is_ready(#[trigger] spec_scheduler_tick(v).slots[j]) ==> {
                let w = spec_scheduler_tick(v);
                &&& prio(w.slots[j]) <= prio(w.slots[w.current as int])
                &&& prio(w.slots[j]) == prio(w.slots[w.current as int]) ==> rr_dist(v.current, w.current, v.count)
                    <= rr_dist(v.current, j as nat, v.count)
            },
{
}

/// No preemption by an equal priority: while the running task's slice
/// lasts and no task that is Ready, or that wakes at this tick, has a
/// strictly higher priority, the running task keeps the CPU.
pub proof fn law_tick_no_preempt_by_equal(v: SchedView)
    requires
        inv(v),
        v.count > 0,
        has_state(v.slots[v.current as int], TaskState::Running),
        v.slots[v.current as int].unwrap().remaining > 1,
        forall|j: int|
            0 <= j < v.count && (is_ready(#[trigger] v.slots[j]) || (has_state(v.slots[j], TaskState::Sleeping)
                && wake_due(ticks_after(v.ticks, 1), v.slots[j].unwrap().sleep_until))) ==> prio(v.slots[j]) <= prio(
                v.slots[v.current as int],
            ),
    ensures
        spec_scheduler_tick(v).current == v.current,
        has_state(spec_scheduler_tick(v).slots[v.current as int], TaskState::Running),
{
}

/// What a tick does to the task that was running: one tick of its slice
/// is used up, and a slice that runs out is renewed; if another task
/// takes over it goes back to Ready, otherwise it keeps running.
pub proof fn law_tick_current_slice(v: SchedView)
    requires
        inv(v),
        v.count > 0,
        has_state(v.slots[v.current as int], TaskState::Running),
    ensures
        ({
            let w = spec_scheduler_tick(v);
            let e = v.slots[v.current as int].unwrap();
            let f = w.slots[v.current as int].unwrap();
            &&& f.remaining == (if e.remaining <= 1 { TIME_SLICE } else { (e.remaining - 1) as u32 })
            &&& w.current != v.current ==> f.state == TaskState::Ready
            &&& w.current == v.current ==> f.state == TaskState::Running
        }),
{
    let now = ticks_after(v.ticks, 1);
    let s1 = woken(v.slots, v.count, now);
    let e = s1[v.current as int].unwrap();
    let rem = slice_after_tick(e.remaining);
    let s2 = s1.update(v.current as int, Some(TaskEntry { remaining: rem, ..e }));
    if rem == 0 || higher_ready(s2, v.count, e.priority) {
        lemma_tick_switch(v);
    }
}

/// What sleeping `n > 0` ticks does: the sleeper keeps its control block
/// and priority and becomes Sleeping until `n` ticks from now with a fresh
/// slice; if another task is Ready, the one picked in turn after the
/// sleeper runs and nothing else changes; otherwise the current task
/// stays the same and nothing else changes.
pub proof fn law_sleep_effect(v: SchedView, n: u32)
    requires
        inv(v),
        v.count > 0,
        n > 0,
    ensures
        ({
            let w = spec_sleep_ticks(v, n);
            let cur = v.current as int;
            &&& w.count == v.count && w.stacks == v.stacks && w.ticks == v.ticks
            &&& w.slots[cur] == Some(TaskEntry {
                state: TaskState::Sleeping,
                sleep_until: ticks_after(v.ticks, n),
                remaining: TIME_SLICE,
                ..v.slots[cur].unwrap()
            })
            &&& forall|i: int| 0 <= i < v.slots.len() && i != cur && i != w.current ==> #[trigger] w.slots[i] == v.slots[i]
            &&& other_ready(v) ==> picked_in_turn(v, w.current as int) && w.slots[w.current as int] == Some(
                TaskEntry { state: TaskState::Running, ..v.slots[w.current as int].unwrap() },
            )
            &&& !other_ready(v) ==> w.current == v.current
        }),
{
    let v1 = crate::scheduler::put_to_sleep(v, n);
    if other_ready(v) {
        let j = choose|j: int| 0 <= j < v.count && j != v.current && is_ready(#[trigger] v.slots[j]);
        assert(is_ready(v1.slots[j]));
        lemma_select_some(v1);
        let k = spec_select_next(v1).unwrap();
        assert forall|j: int| 0 <= j < v.count && j != v.current && is_ready(#[trigger] v.slots[j]) implies {
            &&& prio(v.slots[j]) <= prio(v.slots[k as int])
            &&& prio(v.slots[j]) == prio(v.slots[k as int]) ==> rr_dist(v.current, k, v.count) <= rr_dist(
                v.current,
                j as nat,
                v.count,
            )
        } by {
            assert(is_ready(v1.slots[j]));
        }
    } else {
        if exists|k: nat| selects(v1.slots, v1.count, v1.current, k) {
            let k = choose|k: nat| selects(v1.slots, v1.count, v1.current, k);
            assert(is_ready(v1.slots[k as int]));
        }
    }
}

/// What an exit does: the exiting task keeps its control block and
/// priority and becomes a Zombie with no slice; if another task is Ready,
/// the one picked in turn after the exiting task runs and nothing else
/// changes (sleepers stay asleep); otherwise nothing else changes.
pub proof fn law_exit_effect(v: SchedView)
    requires
        inv(v),
        v.count > 0,
    ensures
        ({
            let w = spec_task_exit(v);
            let cur = v.current as int;
            &&& w.count == v.count && w.stacks == v.stacks && w.ticks == v.ticks
            &&& w.slots[cur] == Some(TaskEntry { state: TaskState::Zombie, remaining: 0, ..v.slots[cur].unwrap() })
            &&& forall|i: int| 0 <= i < v.slots.len() && i != cur && i != w.current ==> #[trigger] w.slots[i] == v.slots[i]
            &&& other_ready(v) ==> picked_in_turn(v, w.current as int) && w.slots[w.current as int] == Some(
                TaskEntry { state: TaskState::Running, ..v.slots[w.current as int].unwrap() },
            )
            &&& !other_ready(v) ==> w.current == v.current
        }),
{
    let v1 = crate::scheduler::make_zombie(v);
    if other_ready(v) {
        let j = choose|j: int| 0 <= j < v.count && j != v.current && is_ready(#[trigger] v.slots[j]);
        assert(is_ready(v1.slots[j]));
        lemma_select_some(v1);
        let k = spec_select_next(v1).unwrap();
        assert forall|j: int| 0 <= j < v.count && j != v.current && is_ready(#[trigger] v.slots[j]) implies {
            &&& prio(v.slots[j]) <= prio(v.slots[k as int])
            &&& prio(v.slots[j]) == prio(v.slots[k as int]) ==> rr_dist(v.current, k, v.count) <= rr_dist(
                v.current,
                j as nat,
                v.count,
            )
        } by {
            assert(is_ready(v1.slots[j]));
        }
    } else {
        if exists|k: nat| selects(v1.slots, v1.count, v1.current, k) {
            let k = choose|k: nat| selects(v1.slots, v1.count, v1.current, k);
            assert(is_ready(v1.slots[k as int]));
        }
    }
}

} // verus!
