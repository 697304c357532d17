use vstd::prelude::*;
use crate::task::{Guid, Task, Uid};

verus! {

/// Holds the tasks waiting for a worker and the tasks that have a result, and
/// hands out identifiers.
///
/// Idle tasks leave in the reverse order of their arrival (a stack); finished
/// tasks are handed over all at once, in the order they finished.
pub struct TasksContainer {
    idle_tasks: Vec<Task>,
    succeeded_tasks: Vec<Task>,
    id_max: usize,
    guid_max: usize,
}

impl TasksContainer {
    /// The idle tasks, the most recently pushed one last.
    pub closed spec fn idle(&self) -> Seq<Task> {
        self.idle_tasks@
    }

    /// The finished tasks not yet handed over, in the order they finished.
    pub closed spec fn succeeded(&self) -> Seq<Task> {
        self.succeeded_tasks@
    }

    /// The next user-facing identifier to hand out.
    pub closed spec fn next_uid(&self) -> nat {
        self.id_max as nat
    }

    /// The next internal identifier to hand out.
    pub closed spec fn next_guid(&self) -> nat {
        self.guid_max as nat
    }

    /// Every finished task carries its result.
    pub open spec fn wf(&self) -> bool {
        forall|i: int| 0 <= i < self.succeeded().len() ==> (#[trigger] self.succeeded()[i])@.result is Some
    }

    pub fn new() -> (r: Self)
        ensures
            r.wf(),
            r.idle() == Seq::<Task>::empty(),
            r.succeeded() == Seq::<Task>::empty(),
            r.next_uid() == 0,
            r.next_guid() == 0,
    {
        TasksContainer { idle_tasks: Vec::new(), succeeded_tasks: Vec::new(), id_max: 0, guid_max: 0 }
    }

    /// Adds a task on top of the idle stack.
    pub fn push_idle(&mut self, task: Task)
        requires
            old(self).wf(),
        ensures
            final(self).wf(),
            final(self).idle() == old(self).idle().push(task),
            final(self).succeeded() == old(self).succeeded(),
            final(self).next_uid() == old(self).next_uid(),
            final(self).next_guid() == old(self).next_guid(),
    {
        self.idle_tasks.push(task);
    }

    /// Removes the most recently pushed idle task, if there is one.
    pub fn take_idle(&mut self) -> (r: Option<Task>)
        requires
            old(self).wf(),
        ensures
            final(self).wf(),
            old(self).idle().len() == 0 ==> r is None && final(self).idle() == old(self).idle(),
            old(self).idle().len() > 0 ==> r == Some(old(self).idle().last()) && final(self).idle()
                == old(self).idle().drop_last(),
            final(self).succeeded() == old(self).succeeded(),
            final(self).next_uid() == old(self).next_uid(),
            final(self).next_guid() == old(self).next_guid(),
    {
        self.idle_tasks.pop()
    }

    /// Records a finished task.
    pub fn push_succeeded(&mut self, task: Task)
        requires
            old(self).wf(),
            task@.result is Some,
        ensures
            final(self).wf(),
            final(self).succeeded() == old(self).succeeded().push(task),
            final(self).idle() == old(self).idle(),
            final(self).next_uid() == old(self).next_uid(),
            final(self).next_guid() == old(self).next_guid(),
    {
        self.succeeded_tasks.push(task);
        proof {
            assert forall|i: int| 0 <= i < self.succeeded().len() implies (#[trigger] self.succeeded()[i])@.result is Some by {
                if i < old(self).succeeded().len() {
                    assert(self.succeeded()[i] == old(self).succeeded()[i]);
                }
            }
        }
    }

    /// Hands over every finished task at once, or `None` when there is none.
    pub fn take_succeeded(&mut self) -> (r: Option<Vec<Task>>)
        requires
            old(self).wf(),
        ensures
            final(self).wf(),
            r is None <==> old(self).succeeded().len() == 0,
            r matches Some(v) ==> v@ == old(self).succeeded(),
            final(self).succeeded() == Seq::<Task>::empty(),
            final(self).idle() == old(self).idle(),
            final(self).next_uid() == old(self).next_uid(),
            final(self).next_guid() == old(self).next_guid(),
    {
        if self.succeeded_tasks.len() == 0 {
            return None;
        }
        let mut taken: Vec<Task> = Vec::new();
        std::mem::swap(&mut taken, &mut self.succeeded_tasks);
        Some(taken)
    }

    /// The next user-facing identifier to hand out.
    pub fn get_next_uid(&self) -> (r: Uid)
        ensures
            r == self.next_uid(),
    {
        self.id_max
    }

    /// Whether some task is idle.
    pub fn has_idle(&self) -> (r: bool)
        ensures
            r == (self.idle().len() > 0),
    {
        self.idle_tasks.len() > 0
    }

    /// Hands out a user-facing identifier that was never handed out before.
    pub fn get_new_uid(&mut self) -> (r: Uid)
        requires
            old(self).wf(),
            old(self).next_uid() < usize::MAX,
        ensures
            final(self).wf(),
            r == old(self).next_uid(),
            final(self).next_uid() == old(self).next_uid() + 1,
            final(self).next_guid() == old(self).next_guid(),
            final(self).idle() == old(self).idle(),
            final(self).succeeded() == old(self).succeeded(),
    {
        let r = self.id_max;
        self.id_max = self.id_max + 1;
        r
    }

    /// Hands out an internal identifier that was never handed out before.
    pub fn get_new_guid(&mut self) -> (r: Guid)
        requires
            old(self).wf(),
            old(self).next_guid() < usize::MAX,
        ensures
            final(self).wf(),
            r == old(self).next_guid(),
            final(self).next_guid() == old(self).next_guid() + 1,
            final(self).next_uid() == old(self).next_uid(),
            final(self).idle() == old(self).idle(),
            final(self).succeeded() == old(self).succeeded(),
    {
        let r = self.guid_max;
        self.guid_max = self.guid_max + 1;
        r
    }
}

/// Idle tasks leave in the reverse order of their arrival: three pushes onto
/// an empty stack, then three takes, give the three tasks back last first.
pub proof fn lemma_idle_is_lifo(a: Task, b: Task, c: Task, s: Seq<Task>)
    requires
        s == Seq::<Task>::empty().push(a).push(b).push(c),
    ensures
        s.last() == c,
        s.drop_last().last() == b,
        s.drop_last().drop_last().last() == a,
        s.drop_last().drop_last().drop_last().len() == 0,
{
}

} // verus!
