use vstd::prelude::*;
use crate::context::{Context, TaskState};

verus! {

/// Number of task slots of a scheduler.
pub const MAX_TASKS: usize = 16;

/// The slot holds a task in state `Ready`.
pub open spec fn is_ready(t: Option<Context>) -> bool {
    t matches Some(c) && c.state == TaskState::Ready
}

/// The slot holds a task in state `Running`.
pub open spec fn is_running(t: Option<Context>) -> bool {
    t matches Some(c) && c.state == TaskState::Running
}

/// The slots after the interrupted task's stack pointer is saved: a
/// running current task records `old_rsp` and goes back to `Ready`.
pub open spec fn save_current(tasks: Seq<Option<Context>>, cur: int, old_rsp: u64) -> Seq<Option<Context>> {
    if is_running(tasks[cur]) {
        tasks.update(cur, Some(Context { rsp: old_rsp, state: TaskState::Ready, ..tasks[cur].unwrap() }))
    } else {
        tasks
    }
}

/// Slot `(cur + k) % MAX_TASKS` is the first ready one met when walking
/// forward from `cur`, wrapping round to `cur` itself last.
pub open spec fn first_ready_offset(tasks: Seq<Option<Context>>, cur: int, k: int) -> bool {
    &&& 1 <= k <= MAX_TASKS
    &&& is_ready(tasks[(cur + k) % (MAX_TASKS as int)])
    &&& forall|j: int| 1 <= j < k ==> !#[trigger] is_ready(tasks[(cur + j) % (MAX_TASKS as int)])
}

/// The slots after slot `idx` is dispatched.
pub open spec fn dispatch_slot(tasks: Seq<Option<Context>>, idx: int) -> Seq<Option<Context>> {
    tasks.update(idx, Some(Context { state: TaskState::Running, ..tasks[idx].unwrap() }))
}

/// At most one task is running, and it is the current one.
pub open spec fn one_running(tasks: Seq<Option<Context>>, cur: int) -> bool {
    forall|i: int| 0 <= i < tasks.len() && #[trigger] is_running(tasks[i]) ==> i == cur
}

/// The outcome of a timer-driven switch from slots `t0` with current slot
/// `cur` and interrupted stack pointer `old_rsp`, to slots `t1`, current
/// slot `cur1` and returned stack pointer `r`.
pub open spec fn switch_post(t0: Seq<Option<Context>>, cur: int, old_rsp: u64, t1: Seq<Option<Context>>, cur1: int, r: u64) -> bool {
    let stay = is_running(t0[cur])
        && forall|i: int| 0 <= i < MAX_TASKS && i != cur ==> !#[trigger] is_ready(t0[i]);
    let saved = save_current(t0, cur, old_rsp);
    &&& stay ==> r == old_rsp && t1 == t0 && cur1 == cur
    &&& !stay ==> (
        (exists|k: int| #[trigger] first_ready_offset(saved, cur, k)
            && cur1 == (cur + k) % (MAX_TASKS as int)
            && t1 == dispatch_slot(saved, (cur + k) % (MAX_TASKS as int))
            && r == saved[(cur + k) % (MAX_TASKS as int)].unwrap().rsp)
        || ((forall|k: int| 1 <= k <= MAX_TASKS ==> !#[trigger] is_ready(saved[(cur + k) % (MAX_TASKS as int)]))
            && t1 == saved && cur1 == cur && r == old_rsp))
}

/// A preemptive round-robin scheduler over 16 task slots.
pub struct Scheduler {
    tasks: [Option<Context>; 16],
    current_task: usize,
}

impl Scheduler {
    pub closed spec fn wf(&self) -> bool {
        self.current_task < MAX_TASKS
    }

    /// The task slots, in order.
    pub closed spec fn tasks(&self) -> Seq<Option<Context>> {
        self.tasks@
    }

    /// Index of the current slot.
    pub closed spec fn current(&self) -> int {
        self.current_task as int
    }

    /// A scheduler has exactly `MAX_TASKS` slots.
    pub proof fn lemma_len(&self)
        ensures
            self.tasks().len() == MAX_TASKS,
    {
    }

    /// A well-formed scheduler's current slot is one of its slots.
    pub proof fn lemma_wf(&self)
        requires
            self.wf(),
        ensures
            0 <= self.current() < MAX_TASKS,
            self.tasks().len() == MAX_TASKS,
    {
    }

    /// A scheduler with every slot empty; slot 0 is current.
    pub fn new() -> (s: Self)
        ensures
            s.wf(),
            s.current() == 0,
            s.tasks() == Seq::new(MAX_TASKS as nat, |i: int| None::<Context>),
    {
        let s = Scheduler { tasks: [None; 16], current_task: 0 };
        assert(s.tasks() =~= Seq::new(MAX_TASKS as nat, |i: int| None::<Context>));
        s
    }

    /// The task in the current slot, if any.
    pub fn current_task(&self) -> (r: Option<&Context>)
        requires
            self.wf(),
        ensures
            r == match self.tasks()[self.current()] {
                Some(c) => Some(&c),
                None => None::<&Context>,
            },
    {
        self.tasks[self.current_task].as_ref()
    }

    /// Mutable access to the task in the current slot, if any.
    pub fn current_task_mut(&mut self) -> (r: Option<&mut Context>)
        requires
            old(self).wf(),
        ensures
            match r {
                Some(c) => {
                    &&& old(self).tasks()[old(self).current()] == Some(*c)
                    &&& final(self).wf()
                    &&& final(self).current() == old(self).current()
                    &&& final(self).tasks() == old(self).tasks().update(old(self).current(), Some(*final(c)))
                },
                None => {
                    &&& old(self).tasks()[old(self).current()] is None
                    &&& final(self).wf()
                    &&& final(self).tasks() == old(self).tasks()
                    &&& final(self).current() == old(self).current()
                },
            },
    {
        let cur = self.current_task;
        self.tasks[cur].as_mut()
    }

    /// Puts `ctx` into the lowest empty slot, or fails when all are taken.
    pub fn spawn(&mut self, ctx: Context) -> (r: Result<(), ()>)
        requires
            old(self).wf(),
        ensures
            final(self).wf(),
            final(self).current() == old(self).current(),
            match r {
                Ok(()) => exists|i: int| {
                    &&& 0 <= i < MAX_TASKS
                    &&& #[trigger] old(self).tasks()[i] is None
                    &&& forall|j: int| 0 <= j < i ==> old(self).tasks()[j] is Some
                    &&& final(self).tasks() == old(self).tasks().update(i, Some(ctx))
                },
                Err(()) => {
                    &&& forall|j: int| 0 <= j < MAX_TASKS ==> old(self).tasks()[j] is Some
                    &&& final(self).tasks() == old(self).tasks()
                },
            },
    {
        let mut i: usize = 0;
        while i < MAX_TASKS
            invariant
                i <= MAX_TASKS,
                self.tasks@ == old(self).tasks@,
                self.current_task == old(self).current_task,
                self.current_task < MAX_TASKS,
                forall|j: int| 0 <= j < i ==> old(self).tasks()[j] is Some,
            decreases MAX_TASKS - i,
        {
            if self.tasks[i].is_none() {
                self.tasks[i] = Some(ctx);
                assert(old(self).tasks()[i as int] is None);
                return Ok(());
            }
            i = i + 1;
        }
        Err(())
    }

    /// Timer-driven switch. Given the interrupted stack pointer, records it
    /// in a running current task and returns the stack pointer of the next
    /// ready task in round-robin order, which becomes the running current
    /// task. When the current task is running and no other task is ready,
    /// nothing changes and `old_rsp` is returned; so too when no task at all
    /// is ready after the save.
    pub fn switch_context(&mut self, old_rsp: u64) -> (r: u64)
        requires
            old(self).wf(),
        ensures
            final(self).wf(),
            switch_post(old(self).tasks(), old(self).current(), old_rsp, final(self).tasks(), final(self).current(), r),
    {
        let cur = self.current_task;
        let ghost cur_i = cur as int;
        // Is any task other than the current one ready?
        let mut other_ready = false;
        let mut i: usize = 0;
        while i < MAX_TASKS
            invariant
                i <= MAX_TASKS,
                cur < MAX_TASKS,
                self.tasks@ == old(self).tasks@,
                other_ready == exists|j: int| 0 <= j < i && j != cur && #[trigger] is_ready(old(self).tasks()[j]),
            decreases MAX_TASKS - i,
        {
            let r = match self.tasks[i] {
                Some(c) => c.state == TaskState::Ready,
                None => false,
            };
            assert(r == is_ready(old(self).tasks()[i as int]));
            if i != cur && r {
                other_ready = true;
            }
            assert(other_ready == exists|j: int| 0 <= j < i + 1 && j != cur && #[trigger] is_ready(old(self).tasks()[j])) by {
                if i != cur && r {
                    assert(is_ready(old(self).tasks()[i as int]));
                }
            }
            i = i + 1;
        }
        let current_is_running = match self.tasks[cur] {
            Some(c) => c.state == TaskState::Running,
            None => false,
        };
        if current_is_running && !other_ready {
            return old_rsp;
        }
        assert(!(is_running(old(self).tasks()[cur_i])
            && forall|i: int| 0 <= i < MAX_TASKS && i != cur_i ==> !#[trigger] is_ready(old(self).tasks()[i]))) by {
            if other_ready {
                let j = choose|j: int| 0 <= j < MAX_TASKS && j != cur && #[trigger] is_ready(old(self).tasks()[j]);
                assert(is_ready(old(self).tasks()[j]));
            }
        }
        if current_is_running {
            let c = self.tasks[cur].unwrap();
            self.tasks[cur] = Some(Context { rsp: old_rsp, state: TaskState::Ready, ..c });
        }
        let ghost saved = self.tasks@;
        assert(saved == save_current(old(self).tasks(), cur_i, old_rsp));
        let mut k: usize = 1;
        while k <= MAX_TASKS
            invariant
                1 <= k <= MAX_TASKS + 1,
                cur < MAX_TASKS,
                cur_i == cur,
                self.current_task == cur,
                self.tasks@ == saved,
                saved == save_current(old(self).tasks(), cur_i, old_rsp),
                cur_i == old(self).current(),
                !(is_running(old(self).tasks()[cur_i])
                    && forall|i: int| 0 <= i < MAX_TASKS && i != cur_i ==> !#[trigger] is_ready(old(self).tasks()[i])),
                forall|j: int| 1 <= j < k ==> !#[trigger] is_ready(saved[(cur_i + j) % (MAX_TASKS as int)]),
            decreases MAX_TASKS + 1 - k,
        {
            let next_idx = (cur + k) % MAX_TASKS;
            if let Some(c) = self.tasks[next_idx] {
                if c.state == TaskState::Ready {
                    self.current_task = next_idx;
                    self.tasks[next_idx] = Some(Context { state: TaskState::Running, ..c });
                    assert(first_ready_offset(saved, cur_i, k as int));
                    assert(self.tasks@ == dispatch_slot(saved, next_idx as int));
                    return c.rsp;
                }
            }
            k = k + 1;
        }
        old_rsp
    }
}

/// A switch keeps "at most one task running, and it is the current one".
pub proof fn law_switch_keeps_one_running(
    t0: Seq<Option<Context>>, cur: int, old_rsp: u64, t1: Seq<Option<Context>>, cur1: int, r: u64,
)
    requires
        t0.len() == MAX_TASKS,
        0 <= cur < MAX_TASKS,
        one_running(t0, cur),
        switch_post(t0, cur, old_rsp, t1, cur1, r),
    ensures
        one_running(t1, cur1),
{
    let saved = save_current(t0, cur, old_rsp);
    assert forall|i: int| 0 <= i < saved.len() && #[trigger] is_running(saved[i]) implies i == cur by {
        if i != cur {
            assert(saved[i] == t0[i]);
        }
    }
    if exists|k: int| #[trigger] first_ready_offset(saved, cur, k) && cur1 == (cur + k) % (MAX_TASKS as int)
        && t1 == dispatch_slot(saved, (cur + k) % (MAX_TASKS as int)) {
        let k = choose|k: int| #[trigger] first_ready_offset(saved, cur, k) && cur1 == (cur + k) % (MAX_TASKS as int)
            && t1 == dispatch_slot(saved, (cur + k) % (MAX_TASKS as int));
        let idx = (cur + k) % (MAX_TASKS as int);
        assert forall|i: int| 0 <= i < t1.len() && #[trigger] is_running(t1[i]) implies i == idx by {
            if i != idx {
                assert(t1[i] == saved[i]);
                if i == cur {
                    assert(is_ready(saved[idx]));
                    if is_running(t0[cur]) {
                        assert(!is_running(saved[cur]));
                    }
                }
            }
        }
    }
}

} // verus!
