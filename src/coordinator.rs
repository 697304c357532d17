use vstd::prelude::*;
use vstd::multiset::Multiset;
use vstd::utf8::encode_utf8;
use crate::command::HostCommand;
use crate::container::TasksContainer;
use crate::framing::{encode_frame, frame};
use crate::task::{Guid, Task, Uid};

verus! {

broadcast use vstd::multiset::group_multiset_axioms;

/// How many times each user-facing identifier occurs among `s`.
pub open spec fn uid_counts(s: Seq<Task>) -> Multiset<nat>
    decreases s.len(),
{
    if s.len() == 0 {
        Multiset::empty()
    } else {
        uid_counts(s.drop_last()).insert(s.last()@.uid)
    }
}

/// Every task of `s` carries its user-facing identifier as its internal one,
/// and, when `pending`, no result yet.
pub open spec fn well_named(s: Seq<Task>, pending: bool) -> bool {
    forall|i: int|
        0 <= i < s.len() ==> (#[trigger] s[i])@.guid == s[i]@.uid && (pending ==> s[i]@.result is None)
}

/// What no call undoes: termination, the tasks handed over, and the
/// identifiers handed out.
pub open spec fn evolves(c: ClusterCoordinator, c2: ClusterCoordinator) -> bool {
    &&& c.terminated() ==> c2.terminated()
    &&& c.drained().subset_of(c2.drained())
    &&& c.next_uid() <= c2.next_uid()
}

/// The bytes that follow an `Execute` command: the program frame, then the
/// data frame.
pub open spec fn execute_payload(program: Seq<u8>, data: Seq<u8>) -> Seq<u8> {
    frame(program) + frame(data)
}

/// What the coordinator tells a worker that has just connected.
pub enum Dispatch {
    /// No idle task: the worker is to poll again later.
    Wait,
    /// The coordinator has been told to stop: the worker is to exit.
    Terminate,
    /// A task is leased to this worker; `payload` is what follows the command
    /// byte, and `guid` names the lease when the worker's answer comes back.
    Execute { guid: Guid, payload: Vec<u8> },
}

impl Dispatch {
    /// The command byte that opens the connection.
    pub fn command(&self) -> (r: HostCommand)
        ensures
            (r == HostCommand::Wait) == (self is Wait),
            (r == HostCommand::Terminate) == (self is Terminate),
            (r == HostCommand::Execute) == (self is Execute),
    {
        match self {
            Dispatch::Wait => HostCommand::Wait,
            Dispatch::Terminate => HostCommand::Terminate,
            Dispatch::Execute { .. } => HostCommand::Execute,
        }
    }
}

/// The coordinator's state: the task container, the tasks leased to workers,
/// the program, the port it is served on, and the termination flag.
///
/// Every task ever submitted is, at each moment, held exactly once (idle,
/// leased or finished) or has been handed over to the caller, and never both.
pub struct ClusterCoordinator {
    tasks: TasksContainer,
    leased: Vec<Task>,
    program: Vec<u8>,
    port: u16,
    is_terminated: bool,
    drained: Ghost<Set<nat>>,
}

impl ClusterCoordinator {
    /// The task container.
    pub closed spec fn container(&self) -> TasksContainer {
        self.tasks
    }

    /// The tasks leased to workers, in the order they were leased.
    pub closed spec fn leases(&self) -> Seq<Task> {
        self.leased@
    }

    /// The program's bytes.
    pub closed spec fn program(&self) -> Seq<u8> {
        self.program@
    }

    pub closed spec fn spec_port(&self) -> u16 {
        self.port
    }

    pub closed spec fn terminated(&self) -> bool {
        self.is_terminated
    }

    /// The identifiers of the tasks already handed over by `extract_computed`.
    pub closed spec fn drained(&self) -> Set<nat> {
        self.drained@
    }

    pub open spec fn idle(&self) -> Seq<Task> {
        self.container().idle()
    }

    pub open spec fn succeeded(&self) -> Seq<Task> {
        self.container().succeeded()
    }

    pub open spec fn next_uid(&self) -> nat {
        self.container().next_uid()
    }

    /// How many times the identifier `u` occurs among the tasks held.
    pub open spec fn held_count(&self, u: nat) -> nat {
        uid_counts(self.idle()).count(u) + uid_counts(self.leases()).count(u) + uid_counts(
            self.succeeded(),
        ).count(u)
    }

    /// The identifier `u` is held once if it was handed out and not handed
    /// over, and not at all otherwise; only identifiers handed out are handed over.
    pub open spec fn counts_ok(&self, u: nat) -> bool {
        &&& self.held_count(u) == if u < self.next_uid() && !self.drained().contains(u) {
            1nat
        } else {
            0nat
        }
        &&& self.drained().contains(u) ==> u < self.next_uid()
    }

    /// Each submitted task is held exactly once or has been handed over;
    /// nothing else is held or handed over.
    pub open spec fn wf(&self) -> bool {
        &&& self.container().wf()
        &&& self.container().next_guid() == self.next_uid()
        &&& forall|u: nat| #![trigger self.held_count(u)] self.counts_ok(u)
        &&& well_named(self.idle(), true)
        &&& well_named(self.leases(), true)
        &&& well_named(self.succeeded(), false)
    }

    /// A coordinator for `program`, to be served on `port`, with no task yet.
    pub fn new(program: String, port: u16) -> (r: ClusterCoordinator)
        ensures
            r.wf(),
            r.program() == encode_utf8(program@),
            r.spec_port() == port,
            !r.terminated(),
            r.idle() == Seq::<Task>::empty(),
            r.leases() == Seq::<Task>::empty(),
            r.succeeded() == Seq::<Task>::empty(),
            r.next_uid() == 0,
            r.drained() == Set::<nat>::empty(),
    {
        let bytes = vstd::slice::slice_to_vec(program.as_str().as_bytes());
        ClusterCoordinator {
            tasks: TasksContainer::new(),
            leased: Vec::new(),
            program: bytes,
            port: port,
            is_terminated: false,
            drained: Ghost(Set::empty()),
        }
    }

    /// The port the coordinator is to listen on.
    pub fn port(&self) -> (r: u16)
        ensures
            r == self.spec_port(),
    {
        self.port
    }

    /// Whether `terminate` has been called.
    pub fn is_terminated(&self) -> (r: bool)
        ensures
            r == self.terminated(),
    {
        self.is_terminated
    }

    /// Whether another task can be given an identifier.
    pub fn can_add_task(&self) -> (r: bool)
        requires
            self.wf(),
        ensures
            r == (self.next_uid() < usize::MAX),
    {
        self.tasks.get_next_uid() < usize::MAX
    }

    /// Submits `task` as a new idle task and returns its identifier.
    pub fn add_task(&mut self, task: Vec<u8>) -> (r: Uid)
        requires
            old(self).wf(),
            old(self).next_uid() < usize::MAX,
        ensures
            final(self).wf(),
            evolves(*old(self), *final(self)),
            r == old(self).next_uid(),
            final(self).next_uid() == old(self).next_uid() + 1,
            final(self).idle().len() == old(self).idle().len() + 1,
            final(self).idle().drop_last() == old(self).idle(),
            final(self).idle().last()@.uid == r,
            final(self).idle().last()@.guid == r,
            final(self).idle().last()@.data == task@,
            final(self).idle().last()@.result is None,
            final(self).leases() == old(self).leases(),
            final(self).succeeded() == old(self).succeeded(),
            final(self).drained() == old(self).drained(),
            final(self).terminated() == old(self).terminated(),
            final(self).program() == old(self).program(),
            final(self).spec_port() == old(self).spec_port(),
    {
        let uid = self.tasks.get_new_uid();
        let guid = self.tasks.get_new_guid();
        let t = Task::new(task, uid, guid);
        self.tasks.push_idle(t);
        proof {
            assert(self.idle().drop_last() =~= old(self).idle());
            assert forall|x: nat| #![trigger self.held_count(x)] self.counts_ok(x) by {
                assert(old(self).counts_ok(x));
            }
        }
        uid
    }

    /// Hands over every finished task, or `None` when there is none.
    ///
    /// A task handed over carries its result, and is never handed over again.
    pub fn extract_computed(&mut self) -> (r: Option<Vec<Task>>)
        requires
            old(self).wf(),
        ensures
            final(self).wf(),
            evolves(*old(self), *final(self)),
            r is None <==> old(self).succeeded().len() == 0,
            r matches Some(v) ==> v@ == old(self).succeeded(),
            r matches Some(v) ==> forall|i: int| 0 <= i < v@.len() ==> (#[trigger] v@[i])@.result is Some,
            r matches Some(v) ==> forall|u: nat| #[trigger] uid_counts(v@).count(u) <= 1,
            r matches Some(v) ==> forall|u: nat|
                #![trigger uid_counts(v@).count(u)]
                uid_counts(v@).count(u) > 0 ==> !old(self).drained().contains(u),
            final(self).drained() == old(self).drained().union(
                Set::new(|u: nat| uid_counts(old(self).succeeded()).count(u) > 0),
            ),
            final(self).succeeded() == Seq::<Task>::empty(),
            final(self).idle() == old(self).idle(),
            final(self).leases() == old(self).leases(),
            final(self).next_uid() == old(self).next_uid(),
            final(self).terminated() == old(self).terminated(),
            final(self).program() == old(self).program(),
            final(self).spec_port() == old(self).spec_port(),
    {
        let ghost done = uid_counts(self.succeeded());
        let r = self.tasks.take_succeeded();
        proof {
            self.drained = Ghost(self.drained@.union(Set::new(|u: nat| done.count(u) > 0)));
            assert(uid_counts(self.succeeded()) =~= Multiset::empty());
            assert forall|u: nat| #![trigger self.held_count(u)] self.counts_ok(u) by {
                assert(old(self).counts_ok(u));
                assert(old(self).held_count(u) == self.held_count(u) + done.count(u));
            }
            if let Some(ref v) = r {
                assert forall|i: int| 0 <= i < v@.len() implies (#[trigger] v@[i])@.result is Some by {
                    assert(v@[i] == old(self).succeeded()[i]);
                }
                assert forall|u: nat| #[trigger] uid_counts(v@).count(u) <= 1 by {
                    assert(old(self).counts_ok(u));
                }
                assert forall|u: nat| #[trigger] uid_counts(v@).count(u) > 0 implies !old(
                    self,
                ).drained().contains(u) by {
                    assert(old(self).counts_ok(u));
                }
            }
        }
        r
    }

    /// From now on every worker that connects is told to terminate.
    pub fn terminate(&mut self)
        requires
            old(self).wf(),
        ensures
            final(self).wf(),
            evolves(*old(self), *final(self)),
            final(self).terminated(),
            final(self).container() == old(self).container(),
            final(self).leases() == old(self).leases(),
            final(self).drained() == old(self).drained(),
            final(self).program() == old(self).program(),
            final(self).spec_port() == old(self).spec_port(),
    {
        self.is_terminated = true;
        proof {
            assert forall|u: nat| #![trigger self.held_count(u)] self.counts_ok(u) by {
                assert(old(self).counts_ok(u));
            }
        }
    }

    /// Decides what a worker that has just connected is told.
    ///
    /// After `terminate` it is always `Terminate`. Otherwise, with no idle
    /// task it is `Wait`; else the most recently pushed idle task is leased
    /// to the worker, and the program and the task's data are framed for it.
    pub fn dispatch(&mut self) -> (r: Dispatch)
        requires
            old(self).wf(),
        ensures
            final(self).wf(),
            evolves(*old(self), *final(self)),
            old(self).terminated() ==> r is Terminate && *final(self) == *old(self),
            !old(self).terminated() && old(self).idle().len() == 0 ==> r is Wait && *final(self)
                == *old(self),
            !old(self).terminated() && old(self).idle().len() > 0 ==> {
                let t = old(self).idle().last();
                &&& r matches Dispatch::Execute { guid, payload } && guid == t@.guid
                    && payload@ == execute_payload(old(self).program(), t@.data)
                &&& final(self).idle() == old(self).idle().drop_last()
                &&& final(self).leases() == old(self).leases().push(t)
                &&& final(self).succeeded() == old(self).succeeded()
                &&& final(self).next_uid() == old(self).next_uid()
                &&& final(self).drained() == old(self).drained()
                &&& final(self).terminated() == old(self).terminated()
                &&& final(self).program() == old(self).program()
                &&& final(self).spec_port() == old(self).spec_port()
            },
    {
        if self.is_terminated {
            return Dispatch::Terminate;
        }
        if !self.tasks.has_idle() {
            return Dispatch::Wait;
        }
        match self.tasks.take_idle() {
            None => Dispatch::Wait,
            Some(t) => {
                let guid = t.get_guid();
                let mut payload = encode_frame(self.program.as_slice());
                let mut data = encode_frame(t.data_bytes().as_slice());
                payload.append(&mut data);
                self.leased.push(t);
                proof {
                    assert(uid_counts(self.leases()) == uid_counts(old(self).leases()).insert(
                        t@.uid,
                    )) by {
                        assert(self.leases().drop_last() =~= old(self).leases());
                    }
                    assert forall|u: nat| #![trigger self.held_count(u)] self.counts_ok(u) by {
                        assert(old(self).counts_ok(u));
                    }
                }
                Dispatch::Execute { guid, payload }
            },
        }
    }

    /// Closes the lease named `guid` with the worker's answer: the task is
    /// finished when `result` holds bytes, and goes back to the idle tasks
    /// unchanged when it is `None`. Returns whether such a lease was open;
    /// when none was, nothing changes.
    pub fn complete(&mut self, guid: Guid, result: Option<Vec<u8>>) -> (r: bool)
        requires
            old(self).wf(),
        ensures
            final(self).wf(),
            evolves(*old(self), *final(self)),
            r == exists|i: int| 0 <= i < old(self).leases().len() && (#[trigger] old(self).leases()[i])@.guid == guid,
            !r ==> *final(self) == *old(self),
            r ==> exists|i: int|
                0 <= i < old(self).leases().len() && {
                    let t = #[trigger] old(self).leases()[i];
                    &&& t@.guid == guid
                    &&& forall|j: int| 0 <= j < old(self).leases().len() && j != i ==> (#[trigger] old(self).leases()[j])@.guid != guid
                    &&& final(self).leases() == old(self).leases().remove(i)
                    &&& match result {
                        Some(b) => {
                            &&& final(self).idle() == old(self).idle()
                            &&& final(self).succeeded().drop_last() == old(self).succeeded()
                            &&& final(self).succeeded().len() == old(self).succeeded().len() + 1
                            &&& final(self).succeeded().last()@ == (crate::task::TaskView { result: Some(b@), ..t@ })
                        },
                        None => {
                            &&& final(self).idle() == old(self).idle().push(t)
                            &&& final(self).succeeded() == old(self).succeeded()
                        },
                    }
                },
            final(self).next_uid() == old(self).next_uid(),
            final(self).drained() == old(self).drained(),
            final(self).terminated() == old(self).terminated(),
            final(self).program() == old(self).program(),
            final(self).spec_port() == old(self).spec_port(),
    {
        let mut i: usize = 0;
        while i < self.leased.len()
            invariant
                *self == *old(self),
                old(self).wf(),
                i <= self.leases().len(),
                forall|j: int| 0 <= j < i ==> (#[trigger] self.leases()[j])@.guid != guid,
            decreases self.leases().len() - i,
        {
            if self.leased[i].get_guid() == guid {
                let ghost idx = i as int;
                let mut t = self.leased.remove(i);
                proof {
                    lemma_uid_counts_remove(old(self).leases(), idx);
                    let ls = old(self).leases();
                    assert forall|j: int| 0 <= j < ls.len() && j != idx implies (#[trigger] ls[j])@.guid != guid by {
                        if ls[j]@.guid == guid {
                            lemma_uid_counts_two(ls, idx, j);
                            assert(old(self).counts_ok(ls[j]@.uid));
                        }
                    }
                    assert forall|k: int| 0 <= k < self.leases().len() implies (#[trigger] self.leases()[k])@.guid == self.leases()[k]@.uid
                        && self.leases()[k]@.result is None by {
                        if k < idx {
                            assert(self.leases()[k] == ls[k]);
                        } else {
                            assert(self.leases()[k] == ls[k + 1]);
                        }
                    }
                }
                match result {
                    Some(b) => {
                        t.set_result(b);
                        self.tasks.push_succeeded(t);
                        proof {
                            assert(self.succeeded().drop_last() =~= old(self).succeeded());
                        }
                    },
                    None => {
                        self.tasks.push_idle(t);
                        proof {
                            assert(self.idle().drop_last() =~= old(self).idle());
                        }
                    },
                }
                proof {
                    assert forall|u: nat| #![trigger self.held_count(u)] self.counts_ok(u) by {
                        assert(old(self).counts_ok(u));
                    }
                }
                return true;
            }
            i = i + 1;
        }
        false
    }
}

/// Two tasks of `s` with one identifier make it count at least twice.
pub proof fn lemma_uid_counts_two(s: Seq<Task>, i: int, j: int)
    requires
        0 <= i < s.len(),
        0 <= j < s.len(),
        i != j,
        s[i]@.uid == s[j]@.uid,
    ensures
        uid_counts(s).count(s[i]@.uid) >= 2,
{
    lemma_uid_counts_remove(s, i);
    let r = s.remove(i);
    let k = if j < i { j } else { j - 1 };
    assert(r[k] == s[j]);
    lemma_uid_counts_remove(r, k);
}

/// Taking one task out of a sequence takes exactly its identifier out of the
/// counts.
pub proof fn lemma_uid_counts_remove(s: Seq<Task>, i: int)
    requires
        0 <= i < s.len(),
    ensures
        uid_counts(s) == uid_counts(s.remove(i)).insert(s[i]@.uid),
    decreases s.len(),
{
    if i == s.len() - 1 {
        assert(s.remove(i) =~= s.drop_last());
    } else {
        let d = s.drop_last();
        lemma_uid_counts_remove(d, i);
        assert(d.remove(i) =~= s.remove(i).drop_last());
        assert(s.remove(i).last() == s.last());
        assert(uid_counts(s) =~= uid_counts(s.remove(i)).insert(s[i]@.uid));
    }
}

/// No task is lost and none is duplicated: in a well-formed coordinator every
/// submitted task is held exactly once or has been handed over, never both,
/// and nothing that was not submitted is held or handed over. A task once
/// handed over is no longer held, so it can never be handed over again.
pub proof fn lemma_conservation(c: &ClusterCoordinator, u: nat)
    requires
        c.wf(),
    ensures
        u < c.next_uid() ==> (c.held_count(u) == 1) != c.drained().contains(u),
        u < c.next_uid() ==> c.held_count(u) <= 1,
        u >= c.next_uid() ==> c.held_count(u) == 0 && !c.drained().contains(u),
        c.drained().contains(u) ==> c.held_count(u) == 0,
{
    assert(c.held_count(u) == if u < c.next_uid() && !c.drained().contains(u) {
        1nat
    } else {
        0nat
    });
}

/// Whether each state of `cs` follows from the one before by a call.
pub open spec fn is_run(cs: Seq<ClusterCoordinator>) -> bool {
    forall|k: int| 0 <= k < cs.len() - 1 ==> evolves(#[trigger] cs[k], cs[k + 1])
}

/// Along any run of calls, a terminated coordinator stays terminated, and a
/// task handed over stays handed over.
pub proof fn lemma_run_evolves(cs: Seq<ClusterCoordinator>, i: int, j: int)
    requires
        is_run(cs),
        0 <= i <= j < cs.len(),
    ensures
        evolves(cs[i], cs[j]),
    decreases j - i,
{
    if i < j {
        lemma_run_evolves(cs, i, j - 1);
        assert(evolves(cs[j - 1], cs[j]));
    }
}

/// After `terminate`, whatever calls follow, every worker that connects is
/// told to terminate: the flag is never reset, and `dispatch` on a terminated
/// coordinator answers `Terminate` and changes nothing.
pub proof fn lemma_termination_is_permanent(cs: Seq<ClusterCoordinator>, i: int, j: int)
    requires
        is_run(cs),
        0 <= i <= j < cs.len(),
        cs[i].terminated(),
    ensures
        cs[j].terminated(),
{
    lemma_run_evolves(cs, i, j);
}

/// No task is handed over twice: once `extract_computed` has handed over the
/// task `u`, it is not held at any later point of the run, so no later
/// `extract_computed` hands it over again (each hands over only tasks not
/// handed over before).
pub proof fn lemma_never_handed_over_twice(cs: Seq<ClusterCoordinator>, i: int, j: int, u: nat)
    requires
        is_run(cs),
        0 <= i <= j < cs.len(),
        cs[i].drained().contains(u),
        cs[j].wf(),
    ensures
        cs[j].drained().contains(u),
        cs[j].held_count(u) == 0,
{
    lemma_run_evolves(cs, i, j);
    lemma_conservation(&cs[j], u);
}

} // verus!
