use rtos::scheduler::{
    select_next, Scheduler, TaskEntry, TaskState, IDLE_PRIORITY, MAX_TASKS, TIME_SLICE,
};
use rtos::task::{Task, FRAME_WORDS, STACK_SIZE};

const WRAPPER: usize = 0x0000_0400;
const IDLE: usize = 0x0000_0500;

fn state(s: &Scheduler, i: usize) -> TaskState {
    s.slot(i).unwrap().state
}

/// At most one task is Running, it is the current one, and no Ready task
/// has a higher priority than it.
fn check_running(s: &Scheduler) {
    let cur = s.current();
    for i in 0..s.task_count() {
        let e = s.slot(i).unwrap();
        if e.state == TaskState::Running {
            assert_eq!(i, cur);
        }
    }
    let c = s.slot(cur).unwrap();
    if c.state == TaskState::Running {
        for i in 0..s.task_count() {
            let e = s.slot(i).unwrap();
            if e.state == TaskState::Ready {
                assert!(e.priority <= c.priority);
            }
        }
    }
}

#[test]
fn empty_scheduler_selects_nothing() {
    let mut s = Scheduler::new();
    assert_eq!(s.task_count(), 0);
    assert_eq!(s.current(), 0);
    assert_eq!(select_next(&mut s), None);
    for i in 0..MAX_TASKS {
        assert_eq!(s.slot(i), None);
    }
}

#[test]
fn add_task_registers_a_ready_task() {
    let mut s = Scheduler::new();
    s.add_task(WRAPPER, 0x0000_1000, 7);
    assert_eq!(s.task_count(), 1);
    assert_eq!(
        s.slot(0),
        Some(TaskEntry {
            task: Task { stack_id: 0, stack_ptr: STACK_SIZE - FRAME_WORDS },
            state: TaskState::Ready,
            remaining: TIME_SLICE,
            priority: 7,
            sleep_until: 0,
        })
    );
    // its stack resumes at the wrapper with the entry in r0
    assert_eq!(s.stack_word(0, STACK_SIZE - FRAME_WORDS), 0x1000);
    assert_eq!(s.stack_word(0, STACK_SIZE - 2), WRAPPER as u32);
    assert_eq!(s.stack_word(0, STACK_SIZE - 1), 0x13);
}

#[test]
fn start_adds_idle_and_runs_highest_priority() {
    let mut s = Scheduler::new();
    s.add_task(WRAPPER, 0x1000, 2);
    s.add_task(WRAPPER, 0x2000, 3);
    let first = s.start(IDLE);
    assert_eq!(first, 1);
    assert_eq!(s.current(), 1);
    assert_eq!(s.task_count(), 3);
    assert_eq!(state(&s, 1), TaskState::Running);
    assert_eq!(state(&s, 0), TaskState::Ready);
    let idle = s.slot(2).unwrap();
    assert_eq!(idle.priority, IDLE_PRIORITY);
    assert_eq!(idle.state, TaskState::Ready);
    assert_eq!(s.stack_word(2, STACK_SIZE - 2), IDLE as u32);
    assert_eq!(s.stack_word(2, STACK_SIZE - FRAME_WORDS), 0);
}

#[test]
fn start_with_only_idle_runs_idle() {
    let mut s = Scheduler::new();
    assert_eq!(s.start(IDLE), 0);
    assert_eq!(state(&s, 0), TaskState::Running);
}

#[test]
fn select_next_prefers_priority_then_round_robin() {
    let mut s = Scheduler::new();
    s.add_task(WRAPPER, 0x1000, 1);
    s.add_task(WRAPPER, 0x2000, 4);
    s.add_task(WRAPPER, 0x3000, 4);
    s.start(IDLE);
    // current 0: tasks 1 and 2 share the top priority, 1 comes first after 0
    assert_eq!(s.current(), 1);
    // from task 1 the next of priority 4 in turn is task 2
    assert_eq!(select_next(&mut s), Some(2));
    assert_eq!(s.current(), 1);
}

#[test]
fn equal_priorities_take_turns_every_time_slice() {
    let mut s = Scheduler::new();
    s.add_task(WRAPPER, 0x1000, 1);
    s.add_task(WRAPPER, 0x2000, 1);
    assert_eq!(s.start(IDLE), 1);
    for _ in 0..TIME_SLICE - 1 {
        s.scheduler_tick();
        assert_eq!(s.current(), 1);
    }
    s.scheduler_tick();
    assert_eq!(s.get_ticks(), TIME_SLICE);
    assert_eq!(s.current(), 0);
    assert_eq!(state(&s, 0), TaskState::Running);
    assert_eq!(state(&s, 1), TaskState::Ready);
    assert_eq!(s.slot(1).unwrap().remaining, TIME_SLICE);
    for _ in 0..TIME_SLICE {
        s.scheduler_tick();
    }
    assert_eq!(s.current(), 1);
}

#[test]
fn lone_task_keeps_cpu_after_slice() {
    let mut s = Scheduler::new();
    s.add_task(WRAPPER, 0x1000, 2);
    assert_eq!(s.start(IDLE), 0);
    for _ in 0..3 * TIME_SLICE {
        s.scheduler_tick();
        assert_eq!(s.current(), 0);
        assert_eq!(state(&s, 0), TaskState::Running);
    }
}

#[test]
fn sleep_zero_does_nothing() {
    let mut s = Scheduler::new();
    s.add_task(WRAPPER, 0x1000, 2);
    s.start(IDLE);
    assert_eq!(s.sleep_ticks(0), None);
    assert_eq!(s.current(), 0);
    assert_eq!(state(&s, 0), TaskState::Running);
}

#[test]
fn sleeping_task_yields_and_wakes_on_time() {
    let mut s = Scheduler::new();
    s.add_task(WRAPPER, 0x1000, 3);
    s.start(IDLE);
    assert_eq!(s.sleep_ticks(4), Some(1));
    let e = s.slot(0).unwrap();
    assert_eq!(e.state, TaskState::Sleeping);
    assert_eq!(e.sleep_until, 4);
    assert_eq!(e.remaining, TIME_SLICE);
    assert_eq!(s.current(), 1);
    for _ in 0..3 {
        s.scheduler_tick();
        assert_eq!(s.current(), 1);
        assert_eq!(state(&s, 0), TaskState::Sleeping);
    }
    // at tick 4 the sleeper wakes and preempts the idle task at once
    s.scheduler_tick();
    assert_eq!(s.get_ticks(), 4);
    assert_eq!(s.current(), 0);
    assert_eq!(state(&s, 0), TaskState::Running);
    assert_eq!(state(&s, 1), TaskState::Ready);
}

#[test]
fn higher_priority_sleeper_preempts_busy_task() {
    // task_20ms (priority 2) busy-waits while task_10ms (priority 3) sleeps 10 ticks
    let mut s = Scheduler::new();
    s.add_task(WRAPPER, 0x1000, 2); // task_20ms
    s.add_task(WRAPPER, 0x2000, 3); // task_10ms
    assert_eq!(s.start(IDLE), 1);
    check_running(&s);
    // task_10ms prints at tick 0 and sleeps 10 ticks
    assert_eq!(s.sleep_ticks(10), Some(0));
    check_running(&s);
    for _ in 1..10 {
        s.scheduler_tick();
        check_running(&s);
        assert_eq!(s.current(), 0);
    }
    // tick 10: task_10ms preempts in the middle of task_20ms's busy wait
    s.scheduler_tick();
    assert_eq!(s.get_ticks(), 10);
    assert_eq!(s.current(), 1);
    assert_eq!(state(&s, 0), TaskState::Ready);
    // it sleeps again until tick 20 and task_20ms resumes
    assert_eq!(s.sleep_ticks(10), Some(0));
    for _ in 11..15 {
        s.scheduler_tick();
        assert_eq!(s.current(), 0);
    }
    s.scheduler_tick();
    assert_eq!(s.get_ticks(), 15);
    // task_20ms ends its busy wait at tick 15 and sleeps 5: only idle is left
    assert_eq!(s.sleep_ticks(5), Some(2));
    for _ in 16..20 {
        s.scheduler_tick();
        check_running(&s);
        assert_eq!(s.current(), 2);
    }
    // tick 20: both wake, the higher priority runs first
    s.scheduler_tick();
    assert_eq!(s.current(), 1);
    assert_eq!(state(&s, 0), TaskState::Ready);
    assert_eq!(s.sleep_ticks(10), Some(0));
}

#[test]
fn exited_task_is_never_scheduled_again() {
    let mut s = Scheduler::new();
    s.add_task(WRAPPER, 0x1000, 5);
    s.add_task(WRAPPER, 0x2000, 1);
    assert_eq!(s.start(IDLE), 0);
    assert_eq!(s.task_exit(), Some(1));
    let z = s.slot(0).unwrap();
    assert_eq!(z.state, TaskState::Zombie);
    assert_eq!(z.remaining, 0);
    for _ in 0..4 * TIME_SLICE {
        s.scheduler_tick();
        assert_ne!(s.current(), 0);
        assert_eq!(state(&s, 0), TaskState::Zombie);
    }
}

#[test]
fn exit_hands_over_to_highest_priority_ready_task() {
    let mut s = Scheduler::new();
    s.add_task(WRAPPER, 0x1000, 3);
    s.add_task(WRAPPER, 0x2000, 1);
    s.add_task(WRAPPER, 0x3000, 2);
    assert_eq!(s.start(IDLE), 0);
    // the priority-2 task runs next, not the priority-1 task that comes first in turn
    assert_eq!(s.task_exit(), Some(2));
    assert_eq!(state(&s, 0), TaskState::Zombie);
    assert_eq!(state(&s, 1), TaskState::Ready);
    assert_eq!(state(&s, 2), TaskState::Running);
    check_running(&s);
    // then the priority-1 task, and only then the idle task
    assert_eq!(s.task_exit(), Some(1));
    assert_eq!(s.task_exit(), Some(3));
}

#[test]
fn exit_takes_equal_priorities_in_turn() {
    let mut s = Scheduler::new();
    s.add_task(WRAPPER, 0x1000, 2);
    s.add_task(WRAPPER, 0x2000, 2);
    s.add_task(WRAPPER, 0x3000, 2);
    assert_eq!(s.start(IDLE), 1);
    assert_eq!(s.task_exit(), Some(2));
    assert_eq!(s.task_exit(), Some(0));
}

#[test]
fn exit_with_nothing_ready_returns_none() {
    let mut s = Scheduler::new();
    assert_eq!(s.start(IDLE), 0);
    assert_eq!(s.task_exit(), None);
    assert_eq!(state(&s, 0), TaskState::Zombie);
    assert_eq!(select_next(&mut s), None);
}

#[test]
fn many_tasks_stay_consistent() {
    let mut s = Scheduler::new();
    for p in [1u8, 3, 3, 2, 1, 3, 2] {
        s.add_task(WRAPPER, 0x1000 + p as usize, p);
    }
    assert_eq!(s.task_count(), MAX_TASKS - 1);
    s.start(IDLE);
    assert_eq!(s.task_count(), MAX_TASKS);
    check_running(&s);
    for round in 0..200u32 {
        s.scheduler_tick();
        check_running(&s);
        if round % 7 == 3 {
            s.sleep_ticks(round % 5 + 1);
            check_running(&s);
        }
    }
}
