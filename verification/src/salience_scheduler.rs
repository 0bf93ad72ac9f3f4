use vstd::prelude::*;
use crate::context::{Context, TaskState};
use crate::scheduler::{is_ready, is_running, one_running, MAX_TASKS};

verus! {

/// Top-down goal that decides which tasks get a boost.
#[derive(Debug, Clone, Copy, PartialEq, Eq, Structural)]
pub enum GoalTemplate {
    /// No boosting.
    Normal,
    /// Tasks holding a contended lock get twice the weight.
    LockContention,
    /// Tasks ready for I/O get one and a half times the weight.
    IoBound,
}

/// 1.0 in 16.16 fixed point.
pub const BOOST_ONE: u64 = 0x10000;
/// 2.0 in 16.16 fixed point.
pub const BOOST_LOCK: u64 = 0x20000;
/// 1.5 in 16.16 fixed point.
pub const BOOST_IO: u64 = 0x18000;

/// A scheduler that runs the ready task of greatest salience: the ticks it
/// has waited times a goal-dependent boost in 16.16 fixed point.
pub struct SalienceScheduler {
    tasks: Vec<Option<Context>>,
    current_task: usize,
    waited_ticks: [u64; 16],
    goal_template: GoalTemplate,
    lock_contention: [bool; 16],
    io_ready: [bool; 16],
}

/// The outcome of a salience switch from `s0` with interrupted stack
/// pointer `old_rsp`, to `s1` and returned stack pointer `r`: the winner of
/// the competition becomes the running current task, a running current task
/// going back to `Ready` with `old_rsp` saved; with no candidate, nothing
/// changes.
pub open spec fn salience_switch_post(s0: SalienceScheduler, old_rsp: u64, s1: SalienceScheduler, r: u64) -> bool {
    (exists|w: int| #[trigger] s0.winner(w) && {
        let cur = s0.current();
        let saved = if is_running(s0.tasks()[cur]) {
            s0.tasks().update(cur, Some(Context { rsp: old_rsp, state: TaskState::Ready, ..s0.tasks()[cur].unwrap() }))
        } else {
            s0.tasks()
        };
        &&& s1.current() == w
        &&& s1.tasks() == saved.update(w, Some(Context { state: TaskState::Running, ..s0.tasks()[w].unwrap() }))
        &&& r == s0.tasks()[w].unwrap().rsp
        &&& forall|i: int| 0 <= i < MAX_TASKS ==> s1.waited(i) == (if i == w { 0 } else { s0.waited(i) })
    }) || ((forall|i: int| !#[trigger] s0.candidate(i))
        && r == old_rsp
        && s1.tasks() == s0.tasks()
        && s1.current() == s0.current()
        && forall|i: int| 0 <= i < MAX_TASKS ==> s1.waited(i) == s0.waited(i))
}

/// A salience switch keeps "at most one task running, and it is the
/// current one".
pub proof fn law_salience_switch_keeps_one_running(s0: SalienceScheduler, old_rsp: u64, s1: SalienceScheduler, r: u64)
    requires
        s0.wf(),
        one_running(s0.tasks(), s0.current()),
        salience_switch_post(s0, old_rsp, s1, r),
    ensures
        one_running(s1.tasks(), s1.current()),
{
    let cur = s0.current();
    if exists|w: int| #[trigger] s0.winner(w) && s1.current() == w && r == s0.tasks()[w].unwrap().rsp {
        let w = choose|w: int| #[trigger] s0.winner(w) && s1.current() == w && r == s0.tasks()[w].unwrap().rsp;
        let saved = if is_running(s0.tasks()[cur]) {
            s0.tasks().update(cur, Some(Context { rsp: old_rsp, state: TaskState::Ready, ..s0.tasks()[cur].unwrap() }))
        } else {
            s0.tasks()
        };
        assert forall|i: int| 0 <= i < s1.tasks().len() && #[trigger] is_running(s1.tasks()[i]) implies i == w by {
            if i != w {
                assert(s1.tasks()[i] == saved[i]);
                if i != cur {
                    assert(saved[i] == s0.tasks()[i]);
                }
            }
        }
    }
}

impl SalienceScheduler {
    pub closed spec fn wf(&self) -> bool {
        self.tasks@.len() == MAX_TASKS && self.current_task < MAX_TASKS
    }

    pub closed spec fn tasks(&self) -> Seq<Option<Context>> {
        self.tasks@
    }

    /// A well-formed scheduler has `MAX_TASKS` slots and its current slot
    /// is one of them.
    pub proof fn lemma_wf(&self)
        requires
            self.wf(),
        ensures
            0 <= self.current() < MAX_TASKS,
            self.tasks().len() == MAX_TASKS,
    {
    }

    pub closed spec fn current(&self) -> int {
        self.current_task as int
    }

    /// Ticks task `i` has waited since it last ran.
    pub closed spec fn waited(&self, i: int) -> u64 {
        self.waited_ticks@[i]
    }

    pub closed spec fn goal(&self) -> GoalTemplate {
        self.goal_template
    }

    pub closed spec fn contended(&self, i: int) -> bool {
        self.lock_contention[i]
    }

    pub closed spec fn io_is_ready(&self, i: int) -> bool {
        self.io_ready[i]
    }

    /// Boost of task `i`, 16.16 fixed point.
    pub open spec fn boost(&self, i: int) -> u64 {
        match self.goal() {
            GoalTemplate::Normal => BOOST_ONE,
            GoalTemplate::LockContention => if self.contended(i) { BOOST_LOCK } else { BOOST_ONE },
            GoalTemplate::IoBound => if self.io_is_ready(i) { BOOST_IO } else { BOOST_ONE },
        }
    }

    /// Salience of task `i`: waited ticks times boost.
    pub open spec fn score(&self, i: int) -> int {
        self.waited(i) * self.boost(i)
    }

    /// Task `i` competes for the CPU: it is ready and not the current task.
    pub open spec fn candidate(&self, i: int) -> bool {
        0 <= i < MAX_TASKS && i != self.current() && is_ready(self.tasks()[i])
    }

    /// `w` wins the competition: a candidate that no candidate beats, and
    /// that no earlier candidate ties (all scores zero: the first candidate).
    pub open spec fn winner(&self, w: int) -> bool {
        &&& self.candidate(w)
        &&& forall|i: int| #[trigger] self.candidate(i) ==> self.score(i) <= self.score(w)
        &&& forall|i: int| 0 <= i < w && #[trigger] self.candidate(i) ==> self.score(i) < self.score(w)
    }

    /// Everything but the goal template is as in `other`.
    pub open spec fn same_except_goal(&self, other: &Self) -> bool {
        &&& self.tasks() == other.tasks()
        &&& self.current() == other.current()
        &&& forall|i: int| 0 <= i < MAX_TASKS ==> self.waited(i) == other.waited(i)
            && self.contended(i) == other.contended(i) && self.io_is_ready(i) == other.io_is_ready(i)
    }

    /// Empty slots, nothing waited, no marks, goal `Normal`, slot 0 current.
    pub fn new() -> (s: Self)
        ensures
            s.wf(),
            s.current() == 0,
            s.goal() == GoalTemplate::Normal,
            forall|i: int| 0 <= i < MAX_TASKS ==> s.tasks()[i] is None && s.waited(i) == 0
                && !s.contended(i) && !s.io_is_ready(i),
    {
        let mut tasks: Vec<Option<Context>> = Vec::with_capacity(MAX_TASKS);
        let mut i: usize = 0;
        while i < MAX_TASKS
            invariant
                i <= MAX_TASKS,
                tasks@.len() == i,
                forall|j: int| 0 <= j < i ==> tasks@[j] is None,
            decreases MAX_TASKS - i,
        {
            tasks.push(None);
            i = i + 1;
        }
        SalienceScheduler {
            tasks,
            current_task: 0,
            waited_ticks: [0u64; 16],
            goal_template: GoalTemplate::Normal,
            lock_contention: [false; 16],
            io_ready: [false; 16],
        }
    }

    pub fn set_goal_template(&mut self, template: GoalTemplate)
        requires
            old(self).wf(),
        ensures
            final(self).wf(),
            final(self).goal() == template,
            final(self).same_except_goal(&*old(self)),
    {
        self.goal_template = template;
    }

    /// Marks task `task_id` as holding a contended lock, or not; ids
    /// outside the slots are ignored.
    pub fn mark_lock_contention(&mut self, task_id: usize, contended: bool)
        requires
            old(self).wf(),
        ensures
            final(self).wf(),
            final(self).tasks() == old(self).tasks(),
            final(self).current() == old(self).current(),
            final(self).goal() == old(self).goal(),
            forall|i: int| 0 <= i < MAX_TASKS ==> final(self).waited(i) == old(self).waited(i)
                && final(self).io_is_ready(i) == old(self).io_is_ready(i)
                && final(self).contended(i) == (if i == task_id { contended } else { old(self).contended(i) }),
    {
        if task_id < MAX_TASKS {
            self.lock_contention[task_id] = contended;
        }
    }

    /// Marks task `task_id` as ready for I/O, or not; ids outside the slots
    /// are ignored.
    pub fn mark_io_ready(&mut self, task_id: usize, ready: bool)
        requires
            old(self).wf(),
        ensures
            final(self).wf(),
            final(self).tasks() == old(self).tasks(),
            final(self).current() == old(self).current(),
            final(self).goal() == old(self).goal(),
            forall|i: int| 0 <= i < MAX_TASKS ==> final(self).waited(i) == old(self).waited(i)
                && final(self).contended(i) == old(self).contended(i)
                && final(self).io_is_ready(i) == (if i == task_id { ready } else { old(self).io_is_ready(i) }),
    {
        if task_id < MAX_TASKS {
            self.io_ready[task_id] = ready;
        }
    }

    /// Puts `ctx` into the lowest empty slot with nothing waited, or fails
    /// when all slots are taken.
    pub fn spawn(&mut self, ctx: Context) -> (r: Result<(), ()>)
        requires
            old(self).wf(),
        ensures
            final(self).wf(),
            final(self).current() == old(self).current(),
            final(self).goal() == old(self).goal(),
            forall|j: int| 0 <= j < MAX_TASKS ==> final(self).contended(j) == old(self).contended(j)
                && final(self).io_is_ready(j) == old(self).io_is_ready(j),
            match r {
                Ok(()) => exists|i: int| {
                    &&& 0 <= i < MAX_TASKS
                    &&& #[trigger] old(self).tasks()[i] is None
                    &&& forall|j: int| 0 <= j < i ==> old(self).tasks()[j] is Some
                    &&& final(self).tasks() == old(self).tasks().update(i, Some(ctx))
                    &&& forall|j: int| 0 <= j < MAX_TASKS ==>
                        final(self).waited(j) == (if j == i { 0 } else { old(self).waited(j) })
                },
                Err(()) => {
                    &&& forall|j: int| 0 <= j < MAX_TASKS ==> old(self).tasks()[j] is Some
                    &&& final(self).tasks() == old(self).tasks()
                    &&& forall|j: int| 0 <= j < MAX_TASKS ==> final(self).waited(j) == old(self).waited(j)
                },
            },
    {
        let mut i: usize = 0;
        while i < MAX_TASKS
            invariant
                i <= MAX_TASKS,
                self.tasks@ == old(self).tasks@,
                self.waited_ticks@ == old(self).waited_ticks@,
                self.lock_contention@ == old(self).lock_contention@,
                self.io_ready@ == old(self).io_ready@,
                self.goal_template == old(self).goal_template,
                self.current_task == old(self).current_task,
                old(self).wf(),
                forall|j: int| 0 <= j < i ==> old(self).tasks()[j] is Some,
            decreases MAX_TASKS - i,
        {
            if self.tasks[i].is_none() {
                self.tasks.set(i, Some(ctx));
                self.waited_ticks[i] = 0;
                assert(old(self).tasks()[i as int] is None);
                return Ok(());
            }
            i = i + 1;
        }
        Err(())
    }

    /// The task in the current slot, if any.
    pub fn current_task(&self) -> (r: Option<&Context>)
        requires
            self.wf(),
        ensures
            r == match self.tasks()[self.current()] {
                Some(c) => Some(&c),
                None => None::<&Context>,
            },
    {
        self.tasks[self.current_task].as_ref()
    }

    /// Mutable access to the task in the current slot, if any.
    pub fn current_task_mut(&mut self) -> (r: Option<&mut Context>)
        requires
            old(self).wf(),
        ensures
            match r {
                Some(c) => {
                    &&& old(self).tasks()[old(self).current()] == Some(*c)
                    &&& final(self).wf()
                    &&& final(self).current() == old(self).current()
                    &&& final(self).tasks() == old(self).tasks().update(old(self).current(), Some(*final(c)))
                    &&& final(self).same_except_tasks(&*old(self))
                },
                None => {
                    &&& old(self).tasks()[old(self).current()] is None
                    &&& final(self).wf()
                    &&& final(self).tasks() == old(self).tasks()
                    &&& final(self).same_except_tasks(&*old(self))
                },
            },
    {
        let cur = self.current_task;
        self.tasks[cur].as_mut()
    }

    /// Everything but the task slots is as in `other`.
    pub open spec fn same_except_tasks(&self, other: &Self) -> bool {
        &&& self.current() == other.current()
        &&& self.goal() == other.goal()
        &&& forall|i: int| 0 <= i < MAX_TASKS ==> self.waited(i) == other.waited(i)
            && self.contended(i) == other.contended(i) && self.io_is_ready(i) == other.io_is_ready(i)
    }

    /// One timer tick: every ready task other than the current one has
    /// waited one tick more.
    pub fn tick(&mut self)
        requires
            old(self).wf(),
            forall|i: int| #[trigger] old(self).candidate(i) ==> old(self).waited(i) < u64::MAX,
        ensures
            final(self).wf(),
            final(self).tasks() == old(self).tasks(),
            final(self).same_except_waited(&*old(self)),
            forall|i: int| 0 <= i < MAX_TASKS ==> final(self).waited(i) ==
                (if old(self).candidate(i) { old(self).waited(i) + 1 } else { old(self).waited(i) as int }),
    {
        let mut i: usize = 0;
        while i < MAX_TASKS
            invariant
                i <= MAX_TASKS,
                self.tasks@ == old(self).tasks@,
                self.lock_contention@ == old(self).lock_contention@,
                self.io_ready@ == old(self).io_ready@,
                self.goal_template == old(self).goal_template,
                self.current_task == old(self).current_task,
                old(self).wf(),
                forall|j: int| #[trigger] old(self).candidate(j) ==> old(self).waited(j) < u64::MAX,
                forall|j: int| 0 <= j < MAX_TASKS ==> #[trigger] self.waited(j) ==
                    (if j < i && old(self).candidate(j) { old(self).waited(j) + 1 } else { old(self).waited(j) as int }),
            decreases MAX_TASKS - i,
        {
            assert(self.waited(i as int) == old(self).waited(i as int));
            let is_cand = match self.tasks[i] {
                Some(ctx) => ctx.state == TaskState::Ready && i != self.current_task,
                None => false,
            };
            assert(is_cand == old(self).candidate(i as int));
            let ghost before = self.waited_ticks@;
            assert forall|j: int| 0 <= j < MAX_TASKS implies #[trigger] before[j] ==
                (if j < i && old(self).candidate(j) { old(self).waited(j) + 1 } else { old(self).waited(j) as int }) by {
                assert(self.waited(j) == before[j]);
            }
            if is_cand {
                let w = self.waited_ticks[i];
                self.waited_ticks[i] = w + 1;
                assert(self.waited_ticks@ == before.update(i as int, (w + 1) as u64));
            }
            assert forall|j: int| 0 <= j < MAX_TASKS implies #[trigger] self.waited(j) ==
                (if j < i + 1 && old(self).candidate(j) { old(self).waited(j) + 1 } else { old(self).waited(j) as int }) by {
                if j != i {
                    assert(self.waited_ticks@[j] == before[j]);
                    assert(j < i + 1 <==> j < i);
                } else {
                    assert(old(self).candidate(j) == is_cand);
                    if is_cand {
                        assert(self.waited(j) == old(self).waited(j) + 1);
                    } else {
                        assert(self.waited(j) == old(self).waited(j));
                    }
                }
            }
            i = i + 1;
        }
    }

    /// Everything but the waited ticks is as in `other`.
    pub open spec fn same_except_waited(&self, other: &Self) -> bool {
        &&& self.current() == other.current()
        &&& self.goal() == other.goal()
        &&& forall|i: int| 0 <= i < MAX_TASKS ==> self.contended(i) == other.contended(i)
            && self.io_is_ready(i) == other.io_is_ready(i)
    }

    fn compute_boost(&self, task_id: usize) -> (b: u64)
        requires
            self.wf(),
            task_id < MAX_TASKS,
        ensures
            b == self.boost(task_id as int),
    {
        match self.goal_template {
            GoalTemplate::Normal => BOOST_ONE,
            GoalTemplate::LockContention => if self.lock_contention[task_id] { BOOST_LOCK } else { BOOST_ONE },
            GoalTemplate::IoBound => if self.io_ready[task_id] { BOOST_IO } else { BOOST_ONE },
        }
    }

    fn compute_score(&self, task_id: usize) -> (s: u128)
        requires
            self.wf(),
            task_id < MAX_TASKS,
        ensures
            s == self.score(task_id as int),
    {
        let urgency = self.waited_ticks[task_id] as u128;
        let boost = self.compute_boost(task_id) as u128;
        proof {
            assert(urgency * boost <= 0xFFFF_FFFF_FFFF_FFFF * 0x20000) by (nonlinear_arith)
                requires urgency <= 0xFFFF_FFFF_FFFF_FFFF, boost <= 0x20000;
        }
        urgency * boost
    }

    fn find_best_task(&self) -> (r: Option<usize>)
        requires
            self.wf(),
        ensures
            match r {
                Some(w) => self.winner(w as int),
                None => forall|i: int| !#[trigger] self.candidate(i),
            },
    {
        let mut best_task: Option<usize> = None;
        let mut best_score: u128 = 0;
        let mut i: usize = 0;
        while i < MAX_TASKS
            invariant
                self.wf(),
                i <= MAX_TASKS,
                match best_task {
                    Some(w) => {
                        &&& w < i
                        &&& self.candidate(w as int)
                        &&& best_score == self.score(w as int)
                        &&& forall|j: int| 0 <= j < w && #[trigger] self.candidate(j) ==> self.score(j) < best_score
                    },
                    None => forall|j: int| 0 <= j < i ==> !#[trigger] self.candidate(j),
                },
                forall|j: int| 0 <= j < i && #[trigger] self.candidate(j) ==> self.score(j) <= best_score,
            decreases MAX_TASKS - i,
        {
            if let Some(ctx) = self.tasks[i] {
                if ctx.state == TaskState::Ready && i != self.current_task {
                    let score = self.compute_score(i);
                    if best_task.is_none() || score > best_score {
                        best_score = score;
                        best_task = Some(i);
                    }
                }
            }
            i = i + 1;
        }
        best_task
    }

    /// Switches to the winner of the salience competition. When no other
    /// task is ready, nothing changes and `old_rsp` is returned. Otherwise a running current task
    /// records `old_rsp` and goes back to `Ready`, the winner becomes the
    /// running current task with its waited ticks reset, and its saved
    /// stack pointer is returned.
    pub fn switch_context(&mut self, old_rsp: u64) -> (r: u64)
        requires
            old(self).wf(),
        ensures
            final(self).wf(),
            final(self).goal() == old(self).goal(),
            forall|i: int| 0 <= i < MAX_TASKS ==> final(self).contended(i) == old(self).contended(i)
                && final(self).io_is_ready(i) == old(self).io_is_ready(i),
            salience_switch_post(*old(self), old_rsp, *final(self), r),
    {
        // Is any task other than the current one ready?
        let mut ready_count: usize = 0;
        let mut i: usize = 0;
        while i < MAX_TASKS
            invariant
                self.wf(),
                i <= MAX_TASKS,
                ready_count <= i,
                ready_count == 0 ==> forall|j: int| 0 <= j < i ==> !#[trigger] self.candidate(j),
            decreases MAX_TASKS - i,
        {
            if let Some(c) = self.tasks[i] {
                if i != self.current_task && c.state == TaskState::Ready {
                    ready_count = ready_count + 1;
                }
            }
            i = i + 1;
        }
        if ready_count == 0 {
            return old_rsp;
        }
        match self.find_best_task() {
            Some(winner) => {
                let cur = self.current_task;
                let ghost saved = if is_running(old(self).tasks()[cur as int]) {
                    old(self).tasks().update(cur as int, Some(Context { rsp: old_rsp, state: TaskState::Ready, ..old(self).tasks()[cur as int].unwrap() }))
                } else {
                    old(self).tasks()
                };
                if let Some(c) = self.tasks[cur] {
                    if c.state == TaskState::Running {
                        self.tasks.set(cur, Some(Context { rsp: old_rsp, state: TaskState::Ready, ..c }));
                    }
                }
                assert(self.tasks@ == saved);
                self.current_task = winner;
                let w = self.tasks[winner].unwrap();
                self.tasks.set(winner, Some(Context { state: TaskState::Running, ..w }));
                self.waited_ticks[winner] = 0;
                assert(old(self).winner(winner as int));
                w.rsp
            },
            None => old_rsp,
        }
    }
}


/// The boost a goal gives, in 16.16 fixed point: under `Normal` every task
/// gets 1.0 whatever its marks; under `LockContention` a task holding a
/// contended lock gets 2.0 and any other 1.0, whatever its I/O mark; under
/// `IoBound` a task ready for I/O gets 1.5 and any other 1.0, whatever its
/// lock mark.
pub proof fn law_boost_by_goal(s: SalienceScheduler, i: int)
    ensures
        s.goal() == GoalTemplate::Normal ==> s.boost(i) == 0x10000 && s.score(i) == s.waited(i) * 0x10000,
        s.goal() == GoalTemplate::LockContention ==> s.boost(i) == (if s.contended(i) { 0x20000u64 } else { 0x10000u64 }),
        s.goal() == GoalTemplate::IoBound ==> s.boost(i) == (if s.io_is_ready(i) { 0x18000u64 } else { 0x10000u64 }),
{
}

/// Under the `Normal` goal the marks change nothing: two schedulers with
/// the same tasks, current slot and waited ticks pick the same winner,
/// whatever their lock and I/O marks.
pub proof fn law_normal_goal_ignores_marks(s1: SalienceScheduler, s2: SalienceScheduler, w: int)
    requires
        s1.goal() == GoalTemplate::Normal,
        s2.goal() == GoalTemplate::Normal,
        s1.tasks() == s2.tasks(),
        s1.current() == s2.current(),
        forall|i: int| 0 <= i < MAX_TASKS ==> s1.waited(i) == s2.waited(i),
    ensures
        s1.winner(w) == s2.winner(w),
{
    assert forall|i: int| s1.candidate(i) == s2.candidate(i) by {}
    assert forall|i: int| #[trigger] s1.candidate(i) ==> s1.score(i) == s2.score(i) by {}
}

} // verus!
