use rtos::task::{
    Task, TaskStacks, COOP_FRAME_WORDS, FRAME_WORDS, MAX_TASKS, STACK_SIZE, TASK_INITIAL_CPSR,
};

#[test]
fn new_stacks_are_zero_and_unused() {
    let s = TaskStacks::new();
    assert_eq!(s.task_count(), 0);
    for id in 0..MAX_TASKS {
        assert_eq!(s.stack_word(id, 0), 0);
        assert_eq!(s.stack_word(id, STACK_SIZE - 1), 0);
    }
}

#[test]
fn create_task_builds_cooperative_frame() {
    let mut s = TaskStacks::new();
    let t = s.create_task(0x0000_1234).unwrap();
    assert_eq!(t, Task { stack_id: 0, stack_ptr: STACK_SIZE - COOP_FRAME_WORDS });
    assert_eq!(t.stack_ptr, 498);
    // r0-r12 are zero, lr is the entry address
    for i in 498..511 {
        assert_eq!(s.stack_word(0, i), 0);
    }
    assert_eq!(s.stack_word(0, 511), 0x1234);
    // each task gets a stack of its own
    let t2 = s.create_task(0x0000_5678).unwrap();
    assert_eq!(t2.stack_id, 1);
    assert_eq!(s.stack_word(1, 511), 0x5678);
    assert_eq!(s.stack_word(0, 511), 0x1234);
    assert_eq!(s.task_count(), 2);
}

#[test]
fn create_task_with_arg_builds_full_frame() {
    let mut s = TaskStacks::new();
    let t = s.create_task_with_arg(0x0800_0100, 0x0800_0200);
    assert_eq!(t, Task { stack_id: 0, stack_ptr: STACK_SIZE - FRAME_WORDS });
    assert_eq!(t.stack_ptr, 496);
    assert_eq!(s.stack_word(0, 496), 0x0800_0200); // r0 = argument
    for i in 497..510 {
        assert_eq!(s.stack_word(0, i), 0); // r1-r12, lr_svc
    }
    assert_eq!(s.stack_word(0, 510), 0x0800_0100); // resume_pc = wrapper
    assert_eq!(s.stack_word(0, 511), TASK_INITIAL_CPSR);
    assert_eq!(TASK_INITIAL_CPSR, 0x13);
    // below the frame the stack is untouched
    assert_eq!(s.stack_word(0, 495), 0);
}

#[test]
fn create_task_on_full_table_returns_none() {
    let mut s = TaskStacks::new();
    for i in 0..MAX_TASKS {
        assert_eq!(s.create_task(0x100 + i).map(|t| t.stack_id), Some(i));
    }
    assert_eq!(s.task_count(), MAX_TASKS);
    assert_eq!(s.create_task(0x9999), None);
    assert_eq!(s.task_count(), MAX_TASKS);
    for i in 0..MAX_TASKS {
        assert_eq!(s.stack_word(i, STACK_SIZE - 1), (0x100 + i) as u32);
    }
}

#[test]
fn consecutive_stacks_do_not_overlap() {
    let mut s = TaskStacks::new();
    let t1 = s.create_task_with_arg(0x10, 0x20);
    let t2 = s.create_task_with_arg(0x30, 0x40);
    assert_ne!(t1.stack_id, t2.stack_id);
    assert_eq!(s.stack_word(t1.stack_id, STACK_SIZE - 2), 0x10);
    assert_eq!(s.stack_word(t1.stack_id, STACK_SIZE - FRAME_WORDS), 0x20);
    assert_eq!(s.stack_word(t2.stack_id, STACK_SIZE - 2), 0x30);
    assert_eq!(s.stack_word(t2.stack_id, STACK_SIZE - FRAME_WORDS), 0x40);
}
