//! Task control blocks and the private task stacks, with the initial
//! register frame that makes a task that never ran look as if it had
//! been switched out.
use vstd::prelude::*;

verus! {

/// Words in each task's private stack (2 KiB).
pub const STACK_SIZE: usize = 512;

/// Number of task stacks.
pub const MAX_TASKS: usize = 8;

/// Words in the cooperative frame popped by `pop {r0-r12, lr}; bx lr`.
pub const COOP_FRAME_WORDS: usize = 14;

/// Words in the full frame popped by `pop {r0-r12, lr}; rfeia sp!`:
/// r0-r12, lr_svc, resume_pc, cpsr.
pub const FRAME_WORDS: usize = 16;

/// CPSR of a new task: SVC mode with IRQ and FIQ enabled.
pub const TASK_INITIAL_CPSR: u32 = 0x13;

/// The control block of a task: where its saved frame lies.
///
/// `stack_ptr` is the word index, inside stack `stack_id`, of the lowest
/// word of the saved frame (the slot of r0), which the context-switch
/// code turns into the address it loads into `sp`.
#[derive(Clone, Copy, PartialEq, Eq, Structural, Debug)]
pub struct Task {
    pub stack_id: usize,
    pub stack_ptr: usize,
}

/// A stack that no task has used yet: all zeros.
pub open spec fn zero_stack() -> Seq<u32> {
    Seq::new(STACK_SIZE as nat, |i: int| 0u32)
}

/// A fresh stack holding the cooperative initial frame: r0-r12 are zero
/// and the lr slot, the top word, holds the entry address.
pub open spec fn coop_initial_stack(entry: u32) -> Seq<u32> {
    zero_stack().update(STACK_SIZE - 1, entry)
}

/// A fresh stack holding the full initial frame: r0 is the argument,
/// r1-r12 and lr_svc are zero, resume_pc is the wrapper address and the
/// saved CPSR is SVC mode with interrupts enabled.
pub open spec fn full_initial_stack(wrapper: u32, arg: u32) -> Seq<u32> {
    zero_stack().update(STACK_SIZE - FRAME_WORDS, arg).update(STACK_SIZE - 3, 0u32).update(
        STACK_SIZE - 2,
        wrapper,
    ).update(STACK_SIZE - 1, TASK_INITIAL_CPSR)
}

/// The statically allocated task stacks, handed out one per task in order.
pub struct TaskStacks {
    stacks: Vec<Vec<u32>>,
    count: usize,
}

impl TaskStacks {
    /// The contents of every stack, by stack id.
    pub closed spec fn stacks(&self) -> Seq<Seq<u32>> {
        Seq::new(self.stacks@.len(), |i: int| self.stacks@[i]@)
    }

    /// Number of stacks handed out so far.
    pub closed spec fn count(&self) -> nat {
        self.count as nat
    }

    /// There are `MAX_TASKS` stacks of `STACK_SIZE` words, at most
    /// `MAX_TASKS` of them are handed out, and those not handed out are
    /// still all zeros.
    pub closed spec fn wf(&self) -> bool {
        &&& self.stacks@.len() == MAX_TASKS
        &&& self.count <= MAX_TASKS
        &&& forall|i: int| 0 <= i < MAX_TASKS ==> #[trigger] self.stacks@[i]@.len() == STACK_SIZE
        &&& forall|i: int| self.count <= i < MAX_TASKS ==> #[trigger] self.stacks@[i]@ == zero_stack()
    }

    /// A well-formed table has `MAX_TASKS` stacks of `STACK_SIZE` words, at
    /// most `MAX_TASKS` handed out, and those not handed out all zeros.
    pub proof fn lemma_wf_shape(&self)
        requires
            self.wf(),
        ensures
            self.stacks().len() == MAX_TASKS,
            self.count() <= MAX_TASKS,
            forall|i: int| 0 <= i < MAX_TASKS ==> #[trigger] self.stacks()[i].len() == STACK_SIZE,
            forall|i: int| self.count() <= i < MAX_TASKS ==> #[trigger] self.stacks()[i] == zero_stack(),
    {
    }

    /// All stacks zeroed and none handed out, as after reset.
    pub fn new() -> (s: Self)
        ensures
            s.wf(),
            s.count() == 0,
            s.stacks() == Seq::new(MAX_TASKS as nat, |i: int| zero_stack()),
    {
        let mut stacks: Vec<Vec<u32>> = Vec::new();
        let mut i: usize = 0;
        while i < MAX_TASKS
            invariant
                i <= MAX_TASKS,
                stacks@.len() == i,
                forall|j: int| 0 <= j < i ==> #[trigger] stacks@[j]@ == zero_stack(),
            decreases MAX_TASKS - i,
        {
            let s: Vec<u32> = vec![0u32; STACK_SIZE];
            assert(s@ == zero_stack());
            stacks.push(s);
            i = i + 1;
        }
        let r = TaskStacks { stacks, count: 0 };
        assert(r.stacks() == Seq::new(MAX_TASKS as nat, |i: int| zero_stack()));
        r
    }

    /// Number of stacks handed out so far.
    pub fn task_count(&self) -> (n: usize)
        ensures
            n == self.count(),
    {
        self.count
    }

    /// Word `index` of stack `id`.
    pub fn stack_word(&self, id: usize, index: usize) -> (w: u32)
        requires
            self.wf(),
            id < MAX_TASKS,
            index < STACK_SIZE,
        ensures
            w == self.stacks()[id as int][index as int],
    {
        self.stacks[id][index]
    }

    /// Hands out the next stack and builds in it the cooperative initial
    /// frame, whose lr slot is the entry address, so that restoring the
    /// task starts it at `entry`. `None`, with nothing changed, when every
    /// stack is already handed out.
    pub fn create_task(&mut self, entry: usize) -> (t: Option<Task>)
        requires
            old(self).wf(),
        ensures
            final(self).wf(),
            old(self).count() >= MAX_TASKS ==> t is None && *final(self) == *old(self),
            old(self).count() < MAX_TASKS ==> {
                &&& final(self).count() == old(self).count() + 1
                &&& final(self).stacks() == old(self).stacks().update(
                    old(self).count() as int,
                    coop_initial_stack(entry as u32),
                )
                &&& t == Some(Task { stack_id: old(self).count() as usize, stack_ptr: (STACK_SIZE - COOP_FRAME_WORDS) as usize })
            },
            final(self).stacks().len() == MAX_TASKS,
            forall|i: int|
                0 <= i < MAX_TASKS && i != old(self).count() ==> #[trigger] final(self).stacks()[i] == old(self).stacks()[i],
    {
        if self.count >= MAX_TASKS {
            return None;
        }
        let id = self.count;
        self.count = self.count + 1;
        let mut stack: Vec<u32> = Vec::new();
        std::mem::swap(&mut stack, &mut self.stacks[id]);
        stack[STACK_SIZE - 1] = entry as u32;
        self.stacks[id] = stack;
        proof {
            assert(self.stacks() =~= old(self).stacks().update(id as int, coop_initial_stack(entry as u32)));
        }
        Some(Task { stack_id: id, stack_ptr: STACK_SIZE - COOP_FRAME_WORDS })
    }

    /// Hands out the next stack and builds in it the full 16-word initial
    /// frame, laid out as the interrupt handler saves one: r0 holds `arg`
    /// and the frame resumes at `wrapper` in SVC mode with interrupts on.
    pub fn create_task_with_arg(&mut self, wrapper: usize, arg: usize) -> (t: Task)
        requires
            old(self).wf(),
            old(self).count() < MAX_TASKS,
        ensures
            final(self).wf(),
            final(self).count() == old(self).count() + 1,
            final(self).stacks() == old(self).stacks().update(
                old(self).count() as int,
                full_initial_stack(wrapper as u32, arg as u32),
            ),
            t == (Task { stack_id: old(self).count() as usize, stack_ptr: (STACK_SIZE - FRAME_WORDS) as usize }),
            final(self).stacks().len() == MAX_TASKS,
            forall|i: int|
                0 <= i < MAX_TASKS && i != old(self).count() ==> #[trigger] final(self).stacks()[i] == old(self).stacks()[i],
    {
        let id = self.count;
        self.count = self.count + 1;
        let mut stack: Vec<u32> = Vec::new();
        std::mem::swap(&mut stack, &mut self.stacks[id]);
        stack[STACK_SIZE - FRAME_WORDS] = arg as u32;
        stack[STACK_SIZE - 3] = 0;
        stack[STACK_SIZE - 2] = wrapper as u32;
        stack[STACK_SIZE - 1] = TASK_INITIAL_CPSR;
        self.stacks[id] = stack;
        proof {
            assert(self.stacks() =~= old(self).stacks().update(id as int, full_initial_stack(wrapper as u32, arg as u32)));
        }
        Task { stack_id: id, stack_ptr: STACK_SIZE - FRAME_WORDS }
    }
}

/// Two stacks handed out one after the other by `create_task_with_arg`
/// are different stacks, and the second hand-out leaves the first task's
/// frame as it was: task stacks never overlap.
pub proof fn law_stacks_disjoint(
    before: TaskStacks,
    mid: TaskStacks,
    after: TaskStacks,
    w1: usize,
    a1: usize,
    w2: usize,
    a2: usize,
)
    requires
        before.wf(),
        before.count() + 2 <= MAX_TASKS,
        mid.count() == before.count() + 1,
        mid.stacks() == before.stacks().update(before.count() as int, full_initial_stack(w1 as u32, a1 as u32)),
        after.count() == mid.count() + 1,
        after.stacks() == mid.stacks().update(mid.count() as int, full_initial_stack(w2 as u32, a2 as u32)),
    ensures
        before.count() != mid.count(),
        after.stacks()[before.count() as int] == full_initial_stack(w1 as u32, a1 as u32),
        after.stacks()[mid.count() as int] == full_initial_stack(w2 as u32, a2 as u32),
        forall|i: int|
            0 <= i < MAX_TASKS && i != before.count() && i != mid.count() ==> #[trigger] after.stacks()[i] == before.stacks()[i],
{
    before.lemma_wf_shape();
}

} // verus!
