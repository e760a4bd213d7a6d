//! The life of snapshots: how one is opened, how a fresh one takes the place
//! of the current one, and how they are closed.
//!
//! A snapshot is built up step by step, from its directory to the workers of
//! its engine, and taken down in the opposite order, so that a directory is
//! removed only once its engine is closed, and an engine is closed only once
//! its workers have stopped. The steps are made elsewhere; [`Snapshots`] says
//! which one comes next.

use vstd::prelude::*;

verus! {

/// How far a snapshot has come.
#[derive(Clone, Copy, Debug, PartialEq, Eq, Structural)]
pub enum Stage {
    /// There is nothing of it, or nothing but a directory whose removal was
    /// given up.
    Gone,
    /// Its directory exists.
    Made,
    /// Its directory holds the copy of the store.
    Copied,
    /// The engine is open on the copy.
    Opened,
    /// The embedder of the store is attached, as far as it can be.
    Attached,
    /// The workers of the engine run.
    Running,
}

/// One of the two snapshots that can exist at a time.
#[derive(Clone, Copy, Debug, PartialEq, Eq, Structural)]
pub enum Which {
    /// The one that is explored.
    Current,
    /// The one that is being opened.
    Fresh,
}

/// The step that comes next.
#[derive(Clone, Copy, Debug, PartialEq, Eq, Structural)]
pub enum Action {
    /// None.
    Rest,
    /// Create the directory of the fresh snapshot.
    MakeDir,
    /// Copy the store into it.
    Copy,
    /// Open the engine on the copy.
    OpenEngine,
    /// Attach the embedder that the store recorded.
    AttachEmbedder,
    /// Spawn the workers of the engine.
    SpawnWorkers,
    StopWorkers(Which),
    CloseEngine(Which),
    RemoveDir(Which),
}

/// What the steps are for.
#[derive(Clone, Copy, Debug, PartialEq, Eq, Structural)]
pub enum Task {
    Resting,
    /// A fresh snapshot is opened.
    Opening,
    /// What there is of a fresh snapshot that could not be opened goes.
    Discarding,
    /// The current snapshot goes, and the fresh one takes its place.
    Replacing,
    /// The current snapshot goes.
    Closing,
}

/// The snapshots, and what is done with them.
pub struct Snapshots {
    pub current: Stage,
    pub fresh: Stage,
    pub task: Task,
    /// What came of the last opening or closing.
    pub report: Result<(), String>,
}

impl Stage {
    /// The stage that follows when a snapshot is built up.
    pub open spec fn higher(self) -> Stage {
        match self {
            Stage::Gone => Stage::Made,
            Stage::Made => Stage::Copied,
            Stage::Copied => Stage::Opened,
            Stage::Opened => Stage::Attached,
            Stage::Attached | Stage::Running => Stage::Running,
        }
    }

    /// The stage that follows when a snapshot is taken down.
    pub open spec fn lower(self) -> Stage {
        match self {
            Stage::Running => Stage::Attached,
            Stage::Attached | Stage::Opened => Stage::Copied,
            Stage::Copied | Stage::Made | Stage::Gone => Stage::Gone,
        }
    }

    /// The step that builds up.
    pub open spec fn building(self) -> Action {
        match self {
            Stage::Gone => Action::MakeDir,
            Stage::Made => Action::Copy,
            Stage::Copied => Action::OpenEngine,
            Stage::Opened => Action::AttachEmbedder,
            Stage::Attached | Stage::Running => Action::SpawnWorkers,
        }
    }

    /// The step that takes down.
    pub open spec fn taking_down(self, which: Which) -> Action {
        match self {
            Stage::Running => Action::StopWorkers(which),
            Stage::Attached | Stage::Opened => Action::CloseEngine(which),
            Stage::Copied | Stage::Made | Stage::Gone => Action::RemoveDir(which),
        }
    }

    /// Whether an engine is open.
    pub open spec fn has_engine(self) -> bool {
        self == Stage::Opened || self == Stage::Attached || self == Stage::Running
    }

    fn raised(self) -> (r: Stage)
        ensures
            r == self.higher(),
    {
        match self {
            Stage::Gone => Stage::Made,
            Stage::Made => Stage::Copied,
            Stage::Copied => Stage::Opened,
            Stage::Opened => Stage::Attached,
            Stage::Attached | Stage::Running => Stage::Running,
        }
    }

    fn lowered(self) -> (r: Stage)
        ensures
            r == self.lower(),
    {
        match self {
            Stage::Running => Stage::Attached,
            Stage::Attached | Stage::Opened => Stage::Copied,
            Stage::Copied | Stage::Made | Stage::Gone => Stage::Gone,
        }
    }

    fn step_up(self) -> (r: Action)
        ensures
            r == self.building(),
    {
        match self {
            Stage::Gone => Action::MakeDir,
            Stage::Made => Action::Copy,
            Stage::Copied => Action::OpenEngine,
            Stage::Opened => Action::AttachEmbedder,
            Stage::Attached | Stage::Running => Action::SpawnWorkers,
        }
    }

    fn step_down(self, which: Which) -> (r: Action)
        ensures
            r == self.taking_down(which),
    {
        match self {
            Stage::Running => Action::StopWorkers(which),
            Stage::Attached | Stage::Opened => Action::CloseEngine(which),
            Stage::Copied | Stage::Made | Stage::Gone => Action::RemoveDir(which),
        }
    }
}

impl Snapshots {
    /// What holds between any two steps: at rest there is no fresh snapshot,
    /// and the current one runs if there is one.
    pub open spec fn wf(self) -> bool {
        let whole = self.current == Stage::Running || self.current == Stage::Gone;
        match self.task {
            Task::Resting => whole && self.fresh == Stage::Gone,
            Task::Opening => whole && self.fresh != Stage::Running && self.report is Ok,
            Task::Discarding => whole && self.fresh != Stage::Gone && self.report is Err,
            Task::Replacing => self.fresh == Stage::Running && self.current != Stage::Gone
                && self.report is Ok,
            Task::Closing => self.fresh == Stage::Gone && self.current != Stage::Gone,
        }
    }

    /// How far a snapshot has come.
    pub open spec fn stage(self, which: Which) -> Stage {
        match which {
            Which::Current => self.current,
            Which::Fresh => self.fresh,
        }
    }

    /// The step that comes next.
    pub open spec fn next(self) -> Action {
        match self.task {
            Task::Resting => Action::Rest,
            Task::Opening => self.fresh.building(),
            Task::Discarding => self.fresh.taking_down(Which::Fresh),
            Task::Replacing | Task::Closing => self.current.taking_down(Which::Current),
        }
    }

    /// A fresh snapshot is to be opened.
    pub open spec fn opening(self) -> Snapshots {
        Snapshots { task: Task::Opening, report: Ok(()), ..self }
    }

    /// The current snapshot is to be closed, if there is one.
    pub open spec fn closing(self) -> Snapshots {
        Snapshots {
            task: if self.current == Stage::Gone {
                Task::Resting
            } else {
                Task::Closing
            },
            report: Ok(()),
            ..self
        }
    }

    /// The step was made, with this outcome. A step that fails while a
    /// snapshot is opened ends that; one that takes down is never tried again.
    /// An engine that could not be closed is reported on closing; a removal is
    /// best effort.
    pub open spec fn after(self, outcome: Result<(), String>) -> Snapshots {
        match self.task {
            Task::Resting => self,
            Task::Opening => match outcome {
                Ok(_) => if self.fresh.higher() != Stage::Running {
                    Snapshots { fresh: self.fresh.higher(), ..self }
                } else if self.current == Stage::Gone {
                    Snapshots {
                        current: Stage::Running,
                        fresh: Stage::Gone,
                        task: Task::Resting,
                        ..self
                    }
                } else {
                    Snapshots { fresh: Stage::Running, task: Task::Replacing, ..self }
                },
                Err(_) => Snapshots {
                    task: if self.fresh == Stage::Gone {
                        Task::Resting
                    } else {
                        Task::Discarding
                    },
                    report: outcome,
                    ..self
                },
            },
            Task::Discarding => Snapshots {
                fresh: self.fresh.lower(),
                task: if self.fresh.lower() == Stage::Gone {
                    Task::Resting
                } else {
                    Task::Discarding
                },
                ..self
            },
            Task::Replacing => if self.current.lower() == Stage::Gone {
                Snapshots {
                    current: Stage::Running,
                    fresh: Stage::Gone,
                    task: Task::Resting,
                    ..self
                }
            } else {
                Snapshots { current: self.current.lower(), ..self }
            },
            Task::Closing => Snapshots {
                current: self.current.lower(),
                task: if self.current.lower() == Stage::Gone {
                    Task::Resting
                } else {
                    Task::Closing
                },
                report: if self.report is Ok && self.next() == Action::CloseEngine(
                    Which::Current,
                ) {
                    outcome
                } else {
                    self.report
                },
                ..self
            },
        }
    }

    /// No snapshot.
    pub fn none() -> (r: Snapshots)
        ensures
            r.wf(),
            r.task == Task::Resting,
            r.current == Stage::Gone,
            r.fresh == Stage::Gone,
            r.report is Ok,
    {
        Snapshots {
            current: Stage::Gone,
            fresh: Stage::Gone,
            task: Task::Resting,
            report: Ok(()),
        }
    }

    /// Begins to open a fresh snapshot.
    pub fn open(&mut self)
        requires
            old(self).wf(),
            old(self).task == Task::Resting,
        ensures
            *final(self) == old(self).opening(),
            final(self).wf(),
    {
        self.task = Task::Opening;
        self.report = Ok(());
    }

    /// Begins to close the current snapshot.
    pub fn close(&mut self)
        requires
            old(self).wf(),
            old(self).task == Task::Resting,
        ensures
            *final(self) == old(self).closing(),
            final(self).wf(),
    {
        if self.current != Stage::Gone {
            self.task = Task::Closing;
        }
        self.report = Ok(());
    }

    /// The step that comes next.
    pub fn action(&self) -> (r: Action)
        ensures
            r == self.next(),
    {
        match self.task {
            Task::Resting => Action::Rest,
            Task::Opening => self.fresh.step_up(),
            Task::Discarding => self.fresh.step_down(Which::Fresh),
            Task::Replacing | Task::Closing => self.current.step_down(Which::Current),
        }
    }

    /// Takes the outcome of the step.
    pub fn done(&mut self, outcome: Result<(), String>)
        requires
            old(self).wf(),
        ensures
            *final(self) == old(self).after(outcome),
            final(self).wf(),
    {
        match self.task {
            Task::Resting => {},
            Task::Opening => match outcome {
                Ok(_) => {
                    self.fresh = self.fresh.raised();
                    if self.fresh == Stage::Running {
                        if self.current == Stage::Gone {
                            self.current = Stage::Running;
                            self.fresh = Stage::Gone;
                            self.task = Task::Resting;
                        } else {
                            self.task = Task::Replacing;
                        }
                    }
                },
                Err(e) => {
                    self.report = Err(e);
                    self.task = if self.fresh == Stage::Gone {
                        Task::Resting
                    } else {
                        Task::Discarding
                    };
                },
            },
            Task::Discarding => {
                self.fresh = self.fresh.lowered();
                if self.fresh == Stage::Gone {
                    self.task = Task::Resting;
                }
            },
            Task::Replacing => {
                self.current = self.current.lowered();
                if self.current == Stage::Gone {
                    self.current = Stage::Running;
                    self.fresh = Stage::Gone;
                    self.task = Task::Resting;
                }
            },
            Task::Closing => {
                if self.report.is_ok() && self.action() == Action::CloseEngine(Which::Current) {
                    self.report = outcome;
                }
                self.current = self.current.lowered();
                if self.current == Stage::Gone {
                    self.task = Task::Resting;
                }
            },
        }
    }
}

// Laws ------------------------------------------------------------------

/// A directory is removed only where no engine is open on its copy, and an
/// engine is closed only where its workers do not run.
pub proof fn law_directories_outlive_their_engines(s: Snapshots, which: Which)
    requires
        s.wf(),
    ensures
        s.next() == Action::RemoveDir(which) ==> {
            &&& !s.stage(which).has_engine()
            &&& s.stage(which) != Stage::Gone
        },
        s.next() == Action::CloseEngine(which) ==> {
            &&& s.stage(which).has_engine()
            &&& s.stage(which) != Stage::Running
        },
        s.next() == Action::StopWorkers(which) ==> s.stage(which) == Stage::Running,
{
}

/// The current snapshot is taken down only where a fresh one runs already or
/// where everything is closed.
pub proof fn law_explored_until_replaced(s: Snapshots, outcome: Result<(), String>)
    requires
        s.wf(),
        s.current == Stage::Running,
        s.after(outcome).current != Stage::Running,
    ensures
        s.task == Task::Closing || s.fresh == Stage::Running,
{
}

/// What the snapshots are after these outcomes, one after the other.
pub open spec fn after_all(s: Snapshots, outcomes: Seq<Result<(), String>>) -> Snapshots
    decreases outcomes.len(),
{
    if outcomes.len() == 0 {
        s
    } else {
        after_all(s, outcomes.drop_last()).after(outcomes.last())
    }
}

/// Whatever happens, the snapshots stay well formed.
pub proof fn law_snapshots_stay_well_formed(s: Snapshots, outcomes: Seq<Result<(), String>>)
    requires
        s.wf(),
    ensures
        after_all(s, outcomes).wf(),
    decreases outcomes.len(),
{
    if outcomes.len() > 0 {
        law_snapshots_stay_well_formed(s, outcomes.drop_last());
    }
}

proof fn lemma_opening(s: Snapshots, outcomes: Seq<Result<(), String>>)
    requires
        s.wf(),
        s.task == Task::Resting,
    ensures
        ({
            let t = after_all(s.opening(), outcomes);
            match t.task {
                Task::Resting => {
                    &&& t.report is Ok ==> t.current == Stage::Running
                    &&& t.report is Err ==> t.current == s.current
                },
                Task::Opening | Task::Discarding => t.current == s.current,
                Task::Replacing => true,
                Task::Closing => false,
            }
        }),
    decreases outcomes.len(),
{
    if outcomes.len() > 0 {
        lemma_opening(s, outcomes.drop_last());
        law_snapshots_stay_well_formed(s.opening(), outcomes.drop_last());
    }
}

/// Opening a snapshot either puts a running one in the place of the current
/// one, of which nothing is left, or leaves the current one as it was and
/// nothing of the fresh one behind.
pub proof fn law_opening_replaces_or_leaves_alone(
    s: Snapshots,
    outcomes: Seq<Result<(), String>>,
)
    requires
        s.wf(),
        s.task == Task::Resting,
        after_all(s.opening(), outcomes).task == Task::Resting,
    ensures
        ({
            let t = after_all(s.opening(), outcomes);
            &&& t.fresh == Stage::Gone
            &&& t.report is Ok ==> t.current == Stage::Running
            &&& t.report is Err ==> t.current == s.current
        }),
{
    lemma_opening(s, outcomes);
    law_snapshots_stay_well_formed(s.opening(), outcomes);
}

proof fn lemma_closing(s: Snapshots, outcomes: Seq<Result<(), String>>)
    requires
        s.wf(),
        s.task == Task::Resting,
    ensures
        ({
            let t = after_all(s.closing(), outcomes);
            &&& t.fresh == Stage::Gone
            &&& t.task == Task::Closing || (t.task == Task::Resting && t.current == Stage::Gone)
        }),
    decreases outcomes.len(),
{
    if outcomes.len() > 0 {
        lemma_closing(s, outcomes.drop_last());
    }
}

/// Once closed, no snapshot is left, whatever its steps came to; a directory
/// whose removal was given up counts as gone.
pub proof fn law_closing_leaves_nothing_behind(s: Snapshots, outcomes: Seq<Result<(), String>>)
    requires
        s.wf(),
        s.task == Task::Resting,
        after_all(s.closing(), outcomes).task == Task::Resting,
    ensures
        ({
            let t = after_all(s.closing(), outcomes);
            t.current == Stage::Gone && t.fresh == Stage::Gone
        }),
{
    lemma_closing(s, outcomes);
}

/// How much there is of a snapshot.
pub open spec fn height(stage: Stage) -> nat {
    match stage {
        Stage::Gone => 0,
        Stage::Made => 1,
        Stage::Copied => 2,
        Stage::Opened => 3,
        Stage::Attached => 4,
        Stage::Running => 5,
    }
}

/// The steps still to come, at most.
pub open spec fn steps_left(s: Snapshots) -> int {
    match s.task {
        Task::Resting => 0,
        Task::Opening => 20 - height(s.fresh),
        Task::Discarding => height(s.fresh) as int,
        Task::Replacing | Task::Closing => height(s.current) as int,
    }
}

/// The steps come to an end, however each of them goes.
pub proof fn law_steps_come_to_an_end(s: Snapshots, outcome: Result<(), String>)
    requires
        s.wf(),
        s.task != Task::Resting,
    ensures
        0 <= steps_left(s.after(outcome)) < steps_left(s),
{
}

/// The step of a task leads a snapshot on by that step: building up adds what
/// the step made, taking down leaves what the step did not take.
pub proof fn law_steps_do_what_they_say(s: Snapshots)
    requires
        s.wf(),
    ensures
        ({
            let t = s.after(Ok(()));
            match s.next() {
                Action::Rest => s.task == Task::Resting && t == s,
                Action::MakeDir => s.fresh == Stage::Gone && t.fresh == Stage::Made,
                Action::Copy => s.fresh == Stage::Made && t.fresh == Stage::Copied,
                Action::OpenEngine => s.fresh == Stage::Copied && t.fresh == Stage::Opened,
                Action::AttachEmbedder => s.fresh == Stage::Opened && t.fresh == Stage::Attached,
                Action::SpawnWorkers => {
                    &&& s.fresh == Stage::Attached
                    &&& if s.current == Stage::Gone {
                        t.current == Stage::Running && t.fresh == Stage::Gone
                    } else {
                        t.current == s.current && t.fresh == Stage::Running
                    }
                },
                Action::StopWorkers(which) => s.stage(which) == Stage::Running && t.stage(which)
                    == Stage::Attached,
                Action::CloseEngine(which) => (s.stage(which) == Stage::Attached || s.stage(which)
                    == Stage::Opened) && t.stage(which) == Stage::Copied,
                Action::RemoveDir(which) => (s.stage(which) == Stage::Copied || s.stage(which)
                    == Stage::Made) && (t.stage(which) == Stage::Gone || (s.task
                    == Task::Replacing && t.current == Stage::Running && t.fresh == Stage::Gone)),
            }
        }),
        s.task == Task::Resting <==> s.next() == Action::Rest,
{
}

/// A step that builds up and fails ends the opening: the current snapshot
/// stays, what there is of the fresh one goes, and the failure is reported.
pub proof fn law_a_failed_step_ends_the_opening(s: Snapshots, why: String)
    requires
        s.wf(),
        s.task == Task::Opening,
    ensures
        ({
            let t = s.after(Err(why));
            &&& t.report == Err::<(), String>(why)
            &&& t.current == s.current
            &&& t.fresh == s.fresh
            &&& t.task == if s.fresh == Stage::Gone {
                Task::Resting
            } else {
                Task::Discarding
            }
        }),
{
}

/// Taking down never stops at a failure; only an engine that could not be
/// closed is reported, and only where everything is closed.
pub proof fn law_taking_down_goes_on(s: Snapshots, outcome: Result<(), String>)
    requires
        s.wf(),
        s.task != Task::Opening,
    ensures
        ({
            let (t, u) = (s.after(outcome), s.after(Ok(())));
            &&& (t.current, t.fresh, t.task) == (u.current, u.fresh, u.task)
            &&& s.task == Task::Closing && s.next() == Action::CloseEngine(Which::Current)
                && s.report is Ok ==> t.report == outcome
            &&& !(s.task == Task::Closing && s.next() == Action::CloseEngine(Which::Current)
                && s.report is Ok) ==> t.report == s.report
        }),
{
}

/// To open and to close change nothing but what is done next: an opening
/// starts from what there is, and a closing only where there is something.
pub proof fn law_tasks_start_from_what_there_is(s: Snapshots)
    requires
        s.wf(),
        s.task == Task::Resting,
    ensures
        s.opening().current == s.current && s.opening().fresh == s.fresh,
        s.opening().next() == Action::MakeDir && s.opening().report is Ok,
        s.closing().current == s.current && s.closing().fresh == s.fresh,
        s.closing().report is Ok,
        s.current == Stage::Gone ==> s.closing().next() == Action::Rest,
        s.current != Stage::Gone ==> s.closing().next() == Action::StopWorkers(Which::Current),
{
}

} // verus!
