use vstd::prelude::*;
use crate::cache::{lookup, CompileCache};
use crate::command::HostCommand;
use crate::framing::{encode_frame, frame};
use crate::naming::{executable_name, executable_path};

verus! {

/// What happened when the worker's driver carried out the last action.
pub enum WorkerEvent {
    /// The connection to the coordinator is open.
    Connected,
    /// The coordinator could not be reached.
    ConnectFailed,
    /// One command byte was read.
    CommandByte(u8),
    /// One complete frame was read; this is its payload.
    Frame(Vec<u8>),
    /// A read or a write on the connection failed.
    IoFailed,
    /// The probed path was created afresh.
    Created,
    /// The probed path could not be created afresh.
    CreateFailed,
    /// The compiler exited; `true` when it exited with status zero.
    Compiled(bool),
    /// The executable ran: what it wrote to its output when it exited with
    /// status zero, `None` when it could not be run or failed.
    Output(Option<Vec<u8>>),
    /// The result frame was written.
    Written,
    /// The file was deleted, or could not be.
    Removed,
}

/// What the worker's driver is to do next.
pub enum WorkerAction {
    /// Close any open connection and dial the coordinator.
    Dial,
    /// Read one command byte.
    ReadCommand,
    /// Read one frame.
    ReadFrame,
    /// Create `path` only if it does not exist yet.
    CreateExclusive { path: String },
    /// Run the compiler on `source`, writing the executable to `path`.
    Compile { path: String, source: Vec<u8> },
    /// Run the executable at `path`, with `input` on its standard input.
    Run { path: String, input: Vec<u8> },
    /// Write these bytes to the coordinator.
    Reply { bytes: Vec<u8> },
    /// Delete the file at `path`.
    Remove { path: String },
    /// Delete every file in `paths` and stop.
    Exit { paths: Vec<String> },
}

/// Where the worker stands in its round with the coordinator.
pub enum Phase {
    /// Between rounds: about to dial.
    Dialing,
    /// Connected: the command byte comes next.
    AwaitCommand,
    /// Told to execute: the program frame comes next.
    AwaitProgram,
    /// The data frame comes next.
    AwaitData { program: Vec<u8> },
    /// Looking for a path that can be created afresh; `input` is the framed data.
    Probing { program: Vec<u8>, input: Vec<u8>, attempt: usize },
    /// The compiler is building `program` into `path`.
    Compiling { program: Vec<u8>, input: Vec<u8>, path: String },
    /// The executable at `path`, built from `program`, is running.
    Running { program: Vec<u8>, path: String },
    /// The result frame of the executable at `path`, built from `program`,
    /// is being written.
    Replying { program: Vec<u8>, path: String },
    /// A suspect or unfinished executable is being deleted.
    Cleaning,
    /// Told to terminate.
    Finished,
}

/// Whether `paths` lists the paths of `entries`, in order.
pub open spec fn lists_paths(paths: Seq<String>, entries: Seq<(Seq<u8>, Seq<char>)>) -> bool {
    &&& paths.len() == entries.len()
    &&& forall|i: int| 0 <= i < paths.len() ==> (#[trigger] paths[i])@ == entries[i].1
}

/// The round is over: the worker dials again.
pub open spec fn redials(phase: Phase, a: WorkerAction) -> bool {
    phase is Dialing && a is Dial
}

/// The worker stops and deletes every cached executable.
pub open spec fn exits(a: WorkerAction, entries: Seq<(Seq<u8>, Seq<char>)>) -> bool {
    a matches WorkerAction::Exit { paths } && lists_paths(paths@, entries)
}

pub open spec fn creates(a: WorkerAction, path: Seq<char>) -> bool {
    a matches WorkerAction::CreateExclusive { path: p } && p@ == path
}

pub open spec fn compiles(a: WorkerAction, path: Seq<char>, source: Seq<u8>) -> bool {
    a matches WorkerAction::Compile { path: p, source: s } && p@ == path && s@ == source
}

pub open spec fn runs(a: WorkerAction, path: Seq<char>, input: Seq<u8>) -> bool {
    a matches WorkerAction::Run { path: p, input: i } && p@ == path && i@ == input
}

pub open spec fn replies(a: WorkerAction, bytes: Seq<u8>) -> bool {
    a matches WorkerAction::Reply { bytes: b } && b@ == bytes
}

pub open spec fn removes(a: WorkerAction, path: Seq<char>) -> bool {
    a matches WorkerAction::Remove { path: p } && p@ == path
}

pub open spec fn awaits_data(phase: Phase, program: Seq<u8>) -> bool {
    phase matches Phase::AwaitData { program: p } && p@ == program
}

pub open spec fn probing(phase: Phase, program: Seq<u8>, input: Seq<u8>, attempt: nat) -> bool {
    phase matches Phase::Probing { program: p, input: i, attempt: k } && p@ == program && i@ == input
        && k == attempt
}

pub open spec fn compiling(phase: Phase, program: Seq<u8>, input: Seq<u8>, path: Seq<char>) -> bool {
    phase matches Phase::Compiling { program: p, input: i, path: q } && p@ == program && i@ == input
        && q@ == path
}

pub open spec fn running(phase: Phase, program: Seq<u8>, path: Seq<char>) -> bool {
    phase matches Phase::Running { program: p, path: q } && p@ == program && q@ == path
}

pub open spec fn replying(phase: Phase, program: Seq<u8>, path: Seq<char>) -> bool {
    phase matches Phase::Replying { program: p, path: q } && p@ == program && q@ == path
}

/// The worker side of the protocol: one round per connection, and the cache
/// of built programs that outlives the rounds.
pub struct ClientReceiver {
    phase: Phase,
    cache: CompileCache,
}

/// One step of the worker: from `w`, the outcome `event` of the last action
/// leads to `w2` and the next action `a`.
pub open spec fn steps_to(w: ClientReceiver, event: WorkerEvent, w2: ClientReceiver, a: WorkerAction) -> bool {
    &&& w.phase() is Dialing ==> {
        &&& w2.cached() == w.cached()
        &&& if event is Connected {
            w2.phase() is AwaitCommand && a is ReadCommand
        } else {
            redials(w2.phase(), a)
        }
    }
    &&& w.phase() is AwaitCommand ==> {
        &&& w2.cached() == w.cached()
        &&& match event {
            WorkerEvent::CommandByte(b) => if b == 1 {
                w2.phase() is AwaitProgram && a is ReadFrame
            } else if b == 2 {
                w2.phase() is Finished && exits(a, w.cached())
            } else {
                redials(w2.phase(), a)
            },
            _ => redials(w2.phase(), a),
        }
    }
    &&& w.phase() is AwaitProgram ==> {
        &&& w2.cached() == w.cached()
        &&& match event {
            WorkerEvent::Frame(p) => awaits_data(w2.phase(), p@) && a is ReadFrame,
            _ => redials(w2.phase(), a),
        }
    }
    &&& (w.phase() matches Phase::AwaitData { program } ==> {
        &&& w2.cached() == w.cached()
        &&& match event {
            WorkerEvent::Frame(d) => match lookup(w.cached(), program@) {
                Some(path) => running(w2.phase(), program@, path) && runs(a, path, frame(d@)),
                None => probing(w2.phase(), program@, frame(d@), 0) && creates(a, executable_path(0)),
            },
            _ => redials(w2.phase(), a),
        }
    })
    &&& (w.phase() matches Phase::Probing { program, input, attempt } ==> {
        &&& w2.cached() == w.cached()
        &&& match event {
            WorkerEvent::Created => {
                &&& compiling(w2.phase(), program@, input@, executable_path(attempt as nat))
                &&& compiles(a, executable_path(attempt as nat), program@)
            },
            WorkerEvent::CreateFailed => if attempt < usize::MAX {
                &&& probing(w2.phase(), program@, input@, (attempt + 1) as nat)
                &&& creates(a, executable_path((attempt + 1) as nat))
            } else {
                redials(w2.phase(), a)
            },
            _ => redials(w2.phase(), a),
        }
    })
    &&& (w.phase() matches Phase::Compiling { program, input, path } ==> match event {
        WorkerEvent::Compiled(true) => {
            &&& lookup(w2.cached(), program@) == Some(path@)
            &&& forall|q: Seq<u8>| q != program@ ==> #[trigger] lookup(w2.cached(), q) == lookup(w.cached(), q)
            &&& running(w2.phase(), program@, path@)
            &&& runs(a, path@, input@)
        },
        _ => w2.cached() == w.cached() && w2.phase() is Cleaning && removes(a, path@),
    })
    &&& (w.phase() matches Phase::Running { program, path } ==> match event {
        WorkerEvent::Output(Some(out)) => {
            &&& w2.cached() == w.cached()
            &&& replying(w2.phase(), program@, path@)
            &&& replies(a, frame(out@))
        },
        WorkerEvent::Output(None) => {
            &&& lookup(w2.cached(), program@) is None
            &&& forall|q: Seq<u8>| q != program@ ==> #[trigger] lookup(w2.cached(), q) == lookup(w.cached(), q)
            &&& w2.phase() is Cleaning
            &&& removes(a, path@)
        },
        _ => w2.cached() == w.cached() && redials(w2.phase(), a),
    })
    &&& (w.phase() matches Phase::Replying { program, path } ==> if event is Written {
        w2.cached() == w.cached() && redials(w2.phase(), a)
    } else {
        &&& lookup(w2.cached(), program@) is None
        &&& forall|q: Seq<u8>| q != program@ ==> #[trigger] lookup(w2.cached(), q) == lookup(w.cached(), q)
        &&& w2.phase() is Cleaning
        &&& removes(a, path@)
    })
    &&& w.phase() is Cleaning ==> w2.cached() == w.cached() && redials(w2.phase(), a)
    &&& w.phase() is Finished ==> w2.cached() == w.cached() && w2.phase() is Finished && exits(a, w.cached())
}

impl ClientReceiver {
    pub closed spec fn phase(&self) -> Phase {
        self.phase
    }

    /// The build cache's entries.
    pub closed spec fn cached(&self) -> Seq<(Seq<u8>, Seq<char>)> {
        self.cache.entries()
    }

    /// A worker about to dial, with nothing built yet. Its first action is
    /// `Dial`.
    /// Each program has at most one cache entry.
    pub open spec fn wf(&self) -> bool {
        crate::cache::keys_unique(self.cached())
    }

    pub fn new() -> (r: Self)
        ensures
            r.wf(),
            r.phase() is Dialing,
            r.cached() == Seq::<(Seq<u8>, Seq<char>)>::empty(),
    {
        ClientReceiver { phase: Phase::Dialing, cache: CompileCache::new() }
    }

    /// Whether the worker has been told to terminate.
    pub fn is_finished(&self) -> (r: bool)
        ensures
            r == self.phase() is Finished,
    {
        match self.phase {
            Phase::Finished => true,
            _ => false,
        }
    }

    /// Goes back to dialing: the round is over or went wrong.
    fn redial(&mut self) -> (a: WorkerAction)
        ensures
            final(self).phase() is Dialing,
            final(self).cached() == old(self).cached(),
            a is Dial,
    {
        self.phase = Phase::Dialing;
        WorkerAction::Dial
    }

    /// Stops, handing over the paths of every cached executable.
    fn finish(&mut self) -> (a: WorkerAction)
        ensures
            final(self).phase() is Finished,
            final(self).cached() == old(self).cached(),
            exits(a, old(self).cached()),
    {
        self.phase = Phase::Finished;
        WorkerAction::Exit { paths: self.cache.paths() }
    }

    /// Decides the next action from the outcome of the last one.
    ///
    /// A connection is opened, a command byte read: `Wait` or an unknown byte
    /// ends the round, `Terminate` ends the worker, `Execute` is followed by
    /// reading the program frame and the data frame. The data is framed again
    /// as the executable's input. A program already built runs at once;
    /// otherwise fresh paths are probed, the first one created is compiled to,
    /// and a successful build is cached. The result is framed back to the
    /// coordinator. A failed build deletes its file; a failed run, or a failed
    /// write of its result, also forgets the program's cache entry and deletes
    /// its executable. Any other I/O failure ends the round.
    pub fn step(&mut self, event: WorkerEvent) -> (a: WorkerAction)
        requires
            old(self).wf(),
        ensures
            final(self).wf(),
            steps_to(*old(self), event, *final(self), a),
    {
        let mut phase = Phase::Dialing;
        std::mem::swap(&mut phase, &mut self.phase);
        match phase {
            Phase::Dialing => match event {
                WorkerEvent::Connected => {
                    self.phase = Phase::AwaitCommand;
                    WorkerAction::ReadCommand
                },
                _ => self.redial(),
            },
            Phase::AwaitCommand => match event {
                WorkerEvent::CommandByte(b) => match HostCommand::try_from(b) {
                    Ok(HostCommand::Execute) => {
                        self.phase = Phase::AwaitProgram;
                        WorkerAction::ReadFrame
                    },
                    Ok(HostCommand::Terminate) => self.finish(),
                    _ => self.redial(),
                },
                _ => self.redial(),
            },
            Phase::AwaitProgram => match event {
                WorkerEvent::Frame(p) => {
                    self.phase = Phase::AwaitData { program: p };
                    WorkerAction::ReadFrame
                },
                _ => self.redial(),
            },
            Phase::AwaitData { program } => match event {
                WorkerEvent::Frame(d) => {
                    let input = encode_frame(d.as_slice());
                    match self.cache.get(program.as_slice()) {
                        Some(path) => {
                            let run_path = path.clone();
                            self.phase = Phase::Running { program, path };
                            WorkerAction::Run { path: run_path, input }
                        },
                        None => {
                            self.phase = Phase::Probing { program, input, attempt: 0 };
                            WorkerAction::CreateExclusive { path: executable_name(0) }
                        },
                    }
                },
                _ => self.redial(),
            },
            Phase::Probing { program, input, attempt } => match event {
                WorkerEvent::Created => {
                    let path = executable_name(attempt);
                    let source = vstd::slice::slice_to_vec(program.as_slice());
                    let cpath = path.clone();
                    self.phase = Phase::Compiling { program, input, path };
                    WorkerAction::Compile { path: cpath, source }
                },
                WorkerEvent::CreateFailed => {
                    if attempt < usize::MAX {
                        let next = attempt + 1;
                        self.phase = Phase::Probing { program, input, attempt: next };
                        WorkerAction::CreateExclusive { path: executable_name(next) }
                    } else {
                        self.redial()
                    }
                },
                _ => self.redial(),
            },
            Phase::Compiling { program, input, path } => match event {
                WorkerEvent::Compiled(true) => {
                    self.cache.insert(program.as_slice(), path.clone());
                    let run_path = path.clone();
                    self.phase = Phase::Running { program, path };
                    WorkerAction::Run { path: run_path, input }
                },
                _ => {
                    self.phase = Phase::Cleaning;
                    WorkerAction::Remove { path }
                },
            },
            Phase::Running { program, path } => match event {
                WorkerEvent::Output(Some(out)) => {
                    self.phase = Phase::Replying { program, path };
                    WorkerAction::Reply { bytes: encode_frame(out.as_slice()) }
                },
                WorkerEvent::Output(None) => {
                    self.cache.remove(program.as_slice());
                    self.phase = Phase::Cleaning;
                    WorkerAction::Remove { path }
                },
                _ => self.redial(),
            },
            Phase::Replying { program, path } => match event {
                WorkerEvent::Written => self.redial(),
                _ => {
                    self.cache.remove(program.as_slice());
                    self.phase = Phase::Cleaning;
                    WorkerAction::Remove { path }
                },
            },
            Phase::Cleaning => self.redial(),
            Phase::Finished => self.finish(),
        }
    }
}

/// The step from `w` on `event` fails a round of `program`: its executable
/// failed to run, or its result could not be written back.
pub open spec fn fails_round_of(w: ClientReceiver, event: WorkerEvent, program: Seq<u8>) -> bool {
    ||| (w.phase() matches Phase::Running { program: p, .. } && p@ == program && event == WorkerEvent::Output(None))
    ||| (w.phase() matches Phase::Replying { program: p, .. } && p@ == program && !(event is Written))
}

/// `w` is neither probing a path for `program` nor building it.
pub open spec fn not_building(w: ClientReceiver, program: Seq<u8>) -> bool {
    &&& !(w.phase() matches Phase::Probing { program: p, .. } && p@ == program)
    &&& !(w.phase() matches Phase::Compiling { program: p, .. } && p@ == program)
}

/// The action builds `program`.
pub open spec fn compiles_program(a: WorkerAction, program: Seq<u8>) -> bool {
    a matches WorkerAction::Compile { source, .. } && source@ == program
}

/// The build cache learns a program only when a build of it succeeds, and
/// forgets one only when a round of it fails; every other step leaves what the
/// cache says of each program as it was.
pub proof fn lemma_cache_changes_only_on_build_or_failure(
    w: ClientReceiver,
    event: WorkerEvent,
    w2: ClientReceiver,
    a: WorkerAction,
    q: Seq<u8>,
)
    requires
        steps_to(w, event, w2, a),
        lookup(w2.cached(), q) != lookup(w.cached(), q),
    ensures
        (w.phase() matches Phase::Compiling { program, path, .. } && program@ == q && event
            == WorkerEvent::Compiled(true) && lookup(w2.cached(), q) == Some(path@))
            || (fails_round_of(w, event, q) && lookup(w2.cached(), q) is None),
{
}

/// One step keeps a built program built, unless a round of it fails.
pub proof fn lemma_stays_built(w: ClientReceiver, event: WorkerEvent, w2: ClientReceiver, a: WorkerAction, program: Seq<u8>)
    requires
        steps_to(w, event, w2, a),
        lookup(w.cached(), program) is Some,
        not_building(w, program),
        !fails_round_of(w, event, program),
    ensures
        lookup(w2.cached(), program) is Some,
        not_building(w2, program),
        !compiles_program(a, program),
{
}

/// Once a program is built, it is not built again until a round of it fails:
/// along any run of steps that starts with the program cached and not being
/// built, and in which no round of it fails, it stays cached and no action
/// compiles it. So any number of tasks with the same program cost one build.
pub proof fn lemma_built_program_is_never_rebuilt(
    ws: Seq<ClientReceiver>,
    events: Seq<WorkerEvent>,
    actions: Seq<WorkerAction>,
    program: Seq<u8>,
)
    requires
        ws.len() == events.len() + 1,
        actions.len() == events.len(),
        forall|k: int| 0 <= k < events.len() ==> steps_to(#[trigger] ws[k], events[k], ws[k + 1], actions[k]),
        forall|k: int| 0 <= k < events.len() ==> !fails_round_of(#[trigger] ws[k], events[k], program),
        lookup(ws[0].cached(), program) is Some,
        not_building(ws[0], program),
    ensures
        forall|k: int| 0 <= k < ws.len() ==> lookup((#[trigger] ws[k]).cached(), program) is Some && not_building(ws[k], program),
        forall|k: int| 0 <= k < actions.len() ==> !compiles_program(#[trigger] actions[k], program),
    decreases events.len(),
{
    if events.len() > 0 {
        let n = events.len() - 1;
        let ws0 = ws.drop_last();
        let ev0 = events.drop_last();
        let ac0 = actions.drop_last();
        assert forall|k: int| 0 <= k < ev0.len() implies steps_to(#[trigger] ws0[k], ev0[k], ws0[k + 1], ac0[k]) by {
            assert(ws0[k] == ws[k] && ws0[k + 1] == ws[k + 1]);
            assert(steps_to(ws[k], events[k], ws[k + 1], actions[k]));
        }
        assert forall|k: int| 0 <= k < ev0.len() implies !fails_round_of(#[trigger] ws0[k], ev0[k], program) by {
            assert(ws0[k] == ws[k]);
            assert(!fails_round_of(ws[k], events[k], program));
        }
        lemma_built_program_is_never_rebuilt(ws0, ev0, ac0, program);
        assert(ws0[n] == ws[n]);
        assert(steps_to(ws[n], events[n], ws[n + 1], actions[n]));
        assert(!fails_round_of(ws[n], events[n], program));
        lemma_stays_built(ws[n], events[n], ws[n + 1], actions[n], program);
        assert forall|k: int| 0 <= k < ws.len() implies lookup((#[trigger] ws[k]).cached(), program) is Some && not_building(ws[k], program) by {
            if k < ws0.len() {
                assert(ws0[k] == ws[k]);
            }
        }
        assert forall|k: int| 0 <= k < actions.len() implies !compiles_program(#[trigger] actions[k], program) by {
            if k < ac0.len() {
                assert(ac0[k] == actions[k]);
            }
        }
    }
}

/// A data frame for a program that is already built leads straight to running
/// it: no path is probed and nothing is compiled. A data frame for a program
/// that is not built starts the probe for a fresh path.
pub proof fn lemma_built_program_is_not_rebuilt(w: ClientReceiver, event: WorkerEvent, w2: ClientReceiver, a: WorkerAction)
    requires
        steps_to(w, event, w2, a),
        w.phase() is AwaitData,
        event is Frame,
    ensures
        (w.phase() matches Phase::AwaitData { program } && lookup(w.cached(), program@) is Some) ==> a is Run,
        (w.phase() matches Phase::AwaitData { program } && lookup(w.cached(), program@) is None) ==> a is CreateExclusive,
{
}

} // verus!
