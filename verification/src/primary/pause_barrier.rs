//! A barrier that pauses a group of tasks until it is resumed.
//!
//! The barrier takes one step at a time; whoever drives it waits between the
//! steps where a step says so.
use vstd::prelude::*;

verus! {

/// A barrier that can pause and resume a group of tasks.
#[derive(Debug, PartialEq, Eq, Structural)]
pub struct PauseBarrier {
    /// Whether the barrier is paused.
    pub paused: bool,
    /// The number of tasks that are counted as active.
    pub active: usize,
}

/// How far a task has come in entering the barrier.
#[derive(Clone, Copy, Debug, PartialEq, Eq, Structural)]
pub enum Entry {
    /// The task is outside and waits while the barrier is paused.
    Waiting,
    /// The task is counted as active, and has yet to see that the barrier is open.
    Counted,
    /// The task is inside, with a ticket.
    Entered,
}

impl PauseBarrier {
    /// An open barrier with no active task.
    pub fn new() -> (barrier: Self)
        ensures
            barrier == (PauseBarrier { paused: false, active: 0 }),
    {
        PauseBarrier { paused: false, active: 0 }
    }

    /// The barrier and the task after one step of entering.
    pub open spec fn entering(self, entry: Entry) -> (Self, Entry) {
        match entry {
            Entry::Waiting => if self.paused {
                (self, Entry::Waiting)
            } else {
                (PauseBarrier { active: (self.active + 1) as usize, ..self }, Entry::Counted)
            },
            Entry::Counted => if self.paused {
                (PauseBarrier { active: (self.active - 1) as usize, ..self }, Entry::Waiting)
            } else {
                (self, Entry::Entered)
            },
            Entry::Entered => (self, Entry::Entered),
        }
    }

    /// Takes one step of entering. A task outside is counted as active once
    /// the barrier is open; it is inside if the barrier is still open then,
    /// and outside again if not. A task that stays outside waits until the
    /// barrier is resumed.
    pub fn enter(&mut self, entry: Entry) -> (next: Entry)
        requires
            entry is Waiting ==> old(self).active < usize::MAX,
            entry is Counted ==> old(self).active > 0,
        ensures
            (*final(self), next) == old(self).entering(entry),
    {
        match entry {
            Entry::Waiting => {
                if self.paused {
                    Entry::Waiting
                } else {
                    self.active = self.active + 1;
                    Entry::Counted
                }
            },
            Entry::Counted => {
                if self.paused {
                    self.active = self.active - 1;
                    Entry::Waiting
                } else {
                    Entry::Entered
                }
            },
            Entry::Entered => Entry::Entered,
        }
    }

    /// A task that is inside gives its ticket back.
    pub fn leave(&mut self)
        requires
            old(self).active > 0,
        ensures
            *final(self) == (PauseBarrier {
                active: (old(self).active - 1) as usize,
                ..*old(self)
            }),
    {
        self.active = self.active - 1;
    }

    /// Pauses the barrier.
    pub fn pause(&mut self)
        ensures
            *final(self) == (PauseBarrier { paused: true, ..*old(self) }),
    {
        self.paused = true;
    }

    /// Whether no task is active, so that the wait after pausing is over.
    pub fn is_drained(&self) -> (drained: bool)
        ensures
            drained == (self.active == 0),
    {
        self.active == 0
    }

    /// Opens the barrier again.
    pub fn resume(&mut self)
        ensures
            *final(self) == (PauseBarrier { paused: false, ..*old(self) }),
    {
        self.paused = false;
    }
}

/// A barrier with its tasks, each by how far it has come.
pub struct Guarded {
    pub barrier: PauseBarrier,
    pub tasks: Seq<Entry>,
}

/// The number of tasks that are counted as active.
pub open spec fn counted(tasks: Seq<Entry>) -> nat
    decreases tasks.len(),
{
    if tasks.len() == 0 {
        0
    } else {
        counted(tasks.drop_last()) + (if tasks.last() is Waiting {
            0nat
        } else {
            1nat
        })
    }
}

impl Guarded {
    /// The barrier counts exactly the tasks that are counted or inside.
    pub open spec fn wf(self) -> bool {
        self.barrier.active == counted(self.tasks)
    }

    /// A task takes a step of entering.
    pub open spec fn steps(self, task: int) -> Self {
        let (barrier, entry) = self.barrier.entering(self.tasks[task]);
        Guarded { barrier, tasks: self.tasks.update(task, entry) }
    }

    /// A task that is inside leaves.
    pub open spec fn leaves(self, task: int) -> Self {
        Guarded {
            barrier: PauseBarrier { active: (self.barrier.active - 1) as usize, ..self.barrier },
            tasks: self.tasks.update(task, Entry::Waiting),
        }
    }
}

proof fn lemma_counted_update(tasks: Seq<Entry>, task: int, entry: Entry)
    requires
        0 <= task < tasks.len(),
    ensures
        counted(tasks.update(task, entry)) == counted(tasks) + (if entry is Waiting {
            0int
        } else {
            1
        }) - (if tasks[task] is Waiting {
            0int
        } else {
            1
        }),
    decreases tasks.len(),
{
    let after = tasks.update(task, entry);
    if task < tasks.len() - 1 {
        assert(after.drop_last() =~= tasks.drop_last().update(task, entry));
        lemma_counted_update(tasks.drop_last(), task, entry);
    } else {
        assert(after.drop_last() =~= tasks.drop_last());
    }
}

proof fn lemma_counted_bounds(tasks: Seq<Entry>, task: int)
    requires
        0 <= task < tasks.len(),
        !(tasks[task] is Waiting),
    ensures
        counted(tasks) >= 1,
    decreases tasks.len(),
{
    if task < tasks.len() - 1 {
        assert(tasks.drop_last()[task] == tasks[task]);
        lemma_counted_bounds(tasks.drop_last(), task);
    }
}

/// Whatever step a task takes, the barrier keeps count of the active tasks.
pub proof fn law_barrier_counts_active_tasks(state: Guarded, task: int)
    requires
        state.wf(),
        0 <= task < state.tasks.len(),
        state.barrier.active < usize::MAX,
    ensures
        state.steps(task).wf(),
        state.tasks[task] is Entered ==> state.leaves(task).wf(),
{
    let (barrier, entry) = state.barrier.entering(state.tasks[task]);
    lemma_counted_update(state.tasks, task, entry);
    lemma_counted_update(state.tasks, task, Entry::Waiting);
    if !(state.tasks[task] is Waiting) {
        lemma_counted_bounds(state.tasks, task);
    }
}

/// While the barrier is paused no task comes to be inside: a step of one task
/// leaves all others as they are and does not take that one inside.
pub proof fn law_no_task_enters_while_paused(state: Guarded, task: int, other: int)
    requires
        state.barrier.paused,
        0 <= task < state.tasks.len(),
        0 <= other < state.tasks.len(),
    ensures
        state.steps(task).barrier.paused,
        state.steps(task).tasks[other] is Entered ==> state.tasks[other] is Entered,
        other != task ==> state.steps(task).tasks[other] == state.tasks[other],
{
}

/// Once the wait after pausing is over no task is inside, and no task is
/// about to be: whatever they do, they stay outside until the barrier is resumed.
pub proof fn law_drained_barrier_is_empty(state: Guarded, task: int)
    requires
        state.wf(),
        state.barrier.paused,
        state.barrier.active == 0,
        0 <= task < state.tasks.len(),
    ensures
        state.tasks[task] is Waiting,
        state.steps(task) == state,
{
    if !(state.tasks[task] is Waiting) {
        lemma_counted_bounds(state.tasks, task);
    }
    assert(state.tasks.update(task, Entry::Waiting) =~= state.tasks);
}

/// Once the barrier is resumed, two steps take a waiting task inside.
pub proof fn law_waiting_task_enters_after_resume(state: Guarded, task: int)
    requires
        state.wf(),
        !state.barrier.paused,
        state.barrier.active < usize::MAX,
        0 <= task < state.tasks.len(),
        state.tasks[task] is Waiting,
    ensures
        state.steps(task).steps(task).tasks[task] is Entered,
{
}

/// The number of active tasks is the number of places that are counted or inside.
pub proof fn law_counted_tasks_are_those_not_waiting(tasks: Seq<Entry>)
    ensures
        counted(tasks) == crate::counting::places(
            tasks.len() as int,
            |i: int| !(tasks[i] is Waiting),
        ).len(),
    decreases tasks.len(),
{
    let holds = |i: int| !(tasks[i] is Waiting);
    crate::counting::lemma_places(tasks.len() as int, holds);
    if tasks.len() > 0 {
        let rest = tasks.drop_last();
        law_counted_tasks_are_those_not_waiting(rest);
        crate::counting::lemma_same_places(
            rest.len() as int,
            holds,
            |i: int| !(rest[i] is Waiting),
        );
    }
}

/// A task comes inside from where it is counted only, and only while the
/// barrier is open; it is counted from outside only, and goes back outside
/// only where the barrier has been closed meanwhile.
pub proof fn law_tasks_enter_an_open_barrier(barrier: PauseBarrier, entry: Entry)
    requires
        barrier.active < usize::MAX,
        entry is Counted ==> barrier.active > 0,
    ensures
        barrier.entering(entry).1 is Entered <==> entry is Entered || (entry is Counted
            && !barrier.paused),
        barrier.entering(entry).1 is Counted <==> entry is Waiting && !barrier.paused,
        barrier.entering(entry).1 is Waiting <==> !(entry is Entered) && barrier.paused,
        barrier.entering(entry).0.paused == barrier.paused,
        barrier.entering(entry).0.active - barrier.active == (if entry is Waiting
            && !barrier.paused {
            1int
        } else if entry is Counted && barrier.paused {
            -1
        } else {
            0
        }),
{
}

} // verus!
