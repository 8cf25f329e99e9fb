//! The run of one backup target as a state machine.
//!
//! The pipeline decides; its caller acts. Each step takes what became of the action
//! that the pipeline asked for last and answers with the next action. Actions name
//! directory actions, command actions and storage backends by their position in the
//! target's plan.

use vstd::prelude::*;

verus! {

/// How far the run of a target has come.
#[derive(Clone, Copy, Debug, PartialEq, Eq, Structural)]
pub enum Phase {
    Init,
    Packing,
    Sealed,
    Uploading,
    Done,
    Aborted,
}

/// How the run of a target ended.
#[derive(Clone, Copy, Debug, PartialEq, Eq, Structural)]
pub enum Outcome {
    /// The archive was built and handed to every storage backend.
    Done,
    /// The target has no action: nothing was built or uploaded.
    Skipped,
    /// A fatal error ended the run.
    Aborted,
}

/// What the caller is asked to do next.
#[derive(Clone, Copy, Debug, PartialEq, Eq, Structural)]
pub enum Action {
    /// Create the archive at its transient path.
    CreateArchive,
    /// Pack the directory action at the given position.
    PackDirectory(usize),
    /// Run the command action at the given position, then tell whether its capture
    /// file exists.
    RunCommand(usize),
    /// Pack the capture file of the command action at the given position.
    PackCapture(usize),
    /// Delete the capture file of the command action at the given position.
    RemoveCapture(usize),
    /// Finish the archive.
    Seal,
    /// Upload the archive to the storage backend at the given position.
    Upload(usize),
    /// Delete the archive file.
    RemoveArchive,
    /// Nothing more: the run has ended.
    Finish(Outcome),
}

/// What became of the action that the pipeline asked for last.
#[derive(Clone, Copy, Debug, PartialEq, Eq, Structural)]
pub enum Event {
    /// The run is to begin; no action has been asked for yet.
    Start,
    /// The action succeeded.
    Succeeded,
    /// The action failed.
    Failed,
    /// The action failed and is not to be asked for again.
    Rejected,
    /// The command ran and left its capture file.
    CapturePresent,
    /// The command ran and left no capture file.
    CaptureMissing,
}

/// What the pipeline waits for.
#[derive(Clone, Copy, Debug, PartialEq, Eq, Structural)]
pub enum Step {
    /// The run has not begun.
    Idle,
    /// The archive is being created.
    Creating,
    /// The directory action at the given position is being packed.
    Directory(usize),
    /// The command action at the given position is running.
    Command(usize),
    /// The capture file of the command action at the given position is being packed.
    Capture(usize),
    /// The capture file of the command action at the given position is being deleted;
    /// the flag tells whether the run is to be aborted afterwards.
    Dropping(usize, bool),
    /// The archive is being finished.
    Sealing,
    /// The archive is being uploaded to the storage backend at the given position.
    Uploading(usize),
    /// The archive file is being deleted; the flag tells whether the run is aborted.
    Removing(bool),
    /// The run has ended.
    Finished(Outcome),
}

/// The state of the run of one target.
#[derive(Clone, Copy, Debug, PartialEq, Eq, Structural)]
pub struct Pipeline {
    /// The number of directory actions of the target.
    pub directories: usize,
    /// The number of command actions of the target.
    pub commands: usize,
    /// The number of storage backends.
    pub uploads: usize,
    /// What the pipeline waits for.
    pub step: Step,
    /// Whether the archive file may exist.
    pub archive_live: bool,
    /// The command action whose capture file may exist.
    pub capture_live: Option<usize>,
    /// Whether the archive file was left behind because it could not be deleted.
    pub archive_left: bool,
    /// The command action whose capture file was left behind because it could not be
    /// deleted.
    pub capture_left: Option<usize>,
}

impl Pipeline {
    /// The action that the pipeline has asked for and waits to hear of.
    pub open spec fn pending(self) -> Option<Action> {
        match self.step {
            Step::Idle => None,
            Step::Creating => Some(Action::CreateArchive),
            Step::Directory(i) => Some(Action::PackDirectory(i)),
            Step::Command(j) => Some(Action::RunCommand(j)),
            Step::Capture(j) => Some(Action::PackCapture(j)),
            Step::Dropping(j, _) => Some(Action::RemoveCapture(j)),
            Step::Sealing => Some(Action::Seal),
            Step::Uploading(k) => Some(Action::Upload(k)),
            Step::Removing(_) => Some(Action::RemoveArchive),
            Step::Finished(_) => None,
        }
    }

    /// The phase of the run.
    pub open spec fn spec_phase(self) -> Phase {
        match self.step {
            Step::Idle | Step::Creating => Phase::Init,
            Step::Directory(_) | Step::Command(_) | Step::Capture(_) => Phase::Packing,
            Step::Dropping(_, aborting) => if aborting {
                Phase::Aborted
            } else {
                Phase::Packing
            },
            Step::Sealing => Phase::Sealed,
            Step::Uploading(_) => Phase::Uploading,
            Step::Removing(aborting) => if aborting {
                Phase::Aborted
            } else {
                Phase::Done
            },
            Step::Finished(Outcome::Aborted) => Phase::Aborted,
            Step::Finished(_) => Phase::Done,
        }
    }

    /// Whether the run has ended.
    pub open spec fn finished(self) -> bool {
        self.step is Finished
    }

    /// The first packing step and its action: the first directory action; without
    /// one, the first command action; without one, the sealing of the archive.
    pub open spec fn first_packing(self) -> (Step, Action) {
        if self.directories > 0 {
            (Step::Directory(0), Action::PackDirectory(0))
        } else {
            self.first_command()
        }
    }

    /// The first command action; without one, the sealing of the archive.
    pub open spec fn first_command(self) -> (Step, Action) {
        if self.commands > 0 {
            (Step::Command(0), Action::RunCommand(0))
        } else {
            (Step::Sealing, Action::Seal)
        }
    }

    /// What follows the directory action at position `i`: the next one; after the
    /// last, the command actions.
    pub open spec fn after_directory(self, i: usize) -> (Step, Action) {
        if i + 1 < self.directories {
            (Step::Directory((i + 1) as usize), Action::PackDirectory((i + 1) as usize))
        } else {
            self.first_command()
        }
    }

    /// What follows the command action at position `j`: the next one; after the last,
    /// the sealing of the archive.
    pub open spec fn after_command(self, j: usize) -> (Step, Action) {
        if j + 1 < self.commands {
            (Step::Command((j + 1) as usize), Action::RunCommand((j + 1) as usize))
        } else {
            (Step::Sealing, Action::Seal)
        }
    }

    /// The first upload; without a storage backend, the deletion of the archive file.
    pub open spec fn first_upload(self) -> (Step, Action) {
        if self.uploads > 0 {
            (Step::Uploading(0), Action::Upload(0))
        } else {
            (Step::Removing(false), Action::RemoveArchive)
        }
    }

    /// What follows the upload to the storage backend at position `k`: the next one;
    /// after the last, the deletion of the archive file.
    pub open spec fn after_upload(self, k: usize) -> (Step, Action) {
        if k + 1 < self.uploads {
            (Step::Uploading((k + 1) as usize), Action::Upload((k + 1) as usize))
        } else {
            (Step::Removing(false), Action::RemoveArchive)
        }
    }

    /// The step and the action that follow on an event.
    ///
    /// A run begins with the creation of the archive, unless the target has no action
    /// at all: then it is skipped. Directory actions come first, then command actions,
    /// each kind in its order; then the archive is sealed, uploaded to each storage
    /// backend in turn, and deleted. A command that leaves no capture file is passed
    /// over; one that leaves a capture file has it packed and then deleted. A failed
    /// upload is asked for again, without limit, unless it was rejected. Any other
    /// failure, and any event that does not answer the pending action, aborts the run:
    /// a capture file that may exist is deleted first, then the archive file.
    pub open spec fn control(self, event: Event) -> (Step, Action) {
        let abort = (Step::Removing(true), Action::RemoveArchive);
        match self.step {
            Step::Idle => if event != Event::Start {
                (Step::Finished(Outcome::Aborted), Action::Finish(Outcome::Aborted))
            } else if self.directories == 0 && self.commands == 0 {
                (Step::Finished(Outcome::Skipped), Action::Finish(Outcome::Skipped))
            } else {
                (Step::Creating, Action::CreateArchive)
            },
            Step::Creating => if event == Event::Succeeded {
                self.first_packing()
            } else {
                abort
            },
            Step::Directory(i) => if event == Event::Succeeded {
                self.after_directory(i)
            } else {
                abort
            },
            Step::Command(j) => if event == Event::CapturePresent {
                (Step::Capture(j), Action::PackCapture(j))
            } else if event == Event::CaptureMissing {
                self.after_command(j)
            } else {
                (Step::Dropping(j, true), Action::RemoveCapture(j))
            },
            Step::Capture(j) => (
                Step::Dropping(j, event != Event::Succeeded),
                Action::RemoveCapture(j),
            ),
            Step::Dropping(j, aborting) => if event == Event::Succeeded && !aborting {
                self.after_command(j)
            } else {
                abort
            },
            Step::Sealing => if event == Event::Succeeded {
                self.first_upload()
            } else {
                abort
            },
            Step::Uploading(k) => if event == Event::Succeeded {
                self.after_upload(k)
            } else if event == Event::Failed {
                (Step::Uploading(k), Action::Upload(k))
            } else {
                abort
            },
            Step::Removing(aborting) => if event == Event::Succeeded && !aborting {
                (Step::Finished(Outcome::Done), Action::Finish(Outcome::Done))
            } else {
                (Step::Finished(Outcome::Aborted), Action::Finish(Outcome::Aborted))
            },
            Step::Finished(outcome) => (Step::Finished(outcome), Action::Finish(outcome)),
        }
    }

    /// The record of transient files once the pending action has been answered: a file
    /// whose deletion was asked for is gone when the deletion succeeded and is left
    /// behind otherwise; a capture file that its command did not leave does not exist.
    pub open spec fn released(self, event: Event) -> Pipeline {
        match self.pending() {
            Some(Action::RemoveArchive) => Pipeline {
                archive_live: false,
                archive_left: self.archive_left || (self.archive_live && event
                    != Event::Succeeded),
                ..self
            },
            Some(Action::RemoveCapture(_)) => Pipeline {
                capture_live: None,
                capture_left: if event != Event::Succeeded {
                    self.capture_live
                } else {
                    self.capture_left
                },
                ..self
            },
            Some(Action::RunCommand(_)) => if event == Event::CaptureMissing {
                Pipeline { capture_live: None, ..self }
            } else {
                self
            },
            _ => self,
        }
    }

    /// The record of transient files once an action has been asked for: the creation of
    /// the archive and the run of a command each bring a file that may exist.
    pub open spec fn claimed(self, action: Action) -> Pipeline {
        match action {
            Action::CreateArchive => Pipeline { archive_live: true, ..self },
            Action::RunCommand(j) => Pipeline { capture_live: Some(j), ..self },
            _ => self,
        }
    }

    /// The state and the action that follow on an event.
    pub open spec fn next(self, event: Event) -> (Pipeline, Action) {
        let (step, action) = self.control(event);
        (Pipeline { step, ..self.released(event).claimed(action) }, action)
    }

    /// Whether the record of transient files agrees with the step: the archive file
    /// may exist from its creation until its deletion has been answered, a capture
    /// file from the run of its command until its deletion has been answered, and
    /// positions lie within the plan.
    pub open spec fn wf(self) -> bool {
        &&& self.archive_live == (self.pending() is Some)
        &&& self.capture_live == match self.step {
            Step::Command(j) | Step::Capture(j) | Step::Dropping(j, _) => Some(j),
            _ => None,
        }
        &&& match self.step {
            Step::Directory(i) => i < self.directories,
            Step::Command(j) | Step::Capture(j) | Step::Dropping(j, _) => j < self.commands,
            Step::Uploading(k) => k < self.uploads,
            _ => true,
        }
    }

    /// The state of a run that has not begun, for a target with the given numbers of
    /// directory actions, command actions and storage backends.
    pub fn new(directories: usize, commands: usize, uploads: usize) -> (pipeline: Pipeline)
        ensures
            pipeline == (Pipeline {
                directories,
                commands,
                uploads,
                step: Step::Idle,
                archive_live: false,
                capture_live: None,
                archive_left: false,
                capture_left: None,
            }),
            pipeline.wf(),
    {
        Pipeline {
            directories,
            commands,
            uploads,
            step: Step::Idle,
            archive_live: false,
            capture_live: None,
            archive_left: false,
            capture_left: None,
        }
    }

    /// The phase of the run.
    pub fn phase(&self) -> (phase: Phase)
        ensures
            phase == self.spec_phase(),
    {
        match self.step {
            Step::Idle | Step::Creating => Phase::Init,
            Step::Directory(_) | Step::Command(_) | Step::Capture(_) => Phase::Packing,
            Step::Dropping(_, aborting) => if aborting {
                Phase::Aborted
            } else {
                Phase::Packing
            },
            Step::Sealing => Phase::Sealed,
            Step::Uploading(_) => Phase::Uploading,
            Step::Removing(aborting) => if aborting {
                Phase::Aborted
            } else {
                Phase::Done
            },
            Step::Finished(Outcome::Aborted) => Phase::Aborted,
            Step::Finished(_) => Phase::Done,
        }
    }

    /// How the run ended, once it has.
    pub fn outcome(&self) -> (outcome: Option<Outcome>)
        ensures
            outcome == match self.step {
                Step::Finished(o) => Some(o),
                _ => None,
            },
    {
        match self.step {
            Step::Finished(o) => Some(o),
            _ => None,
        }
    }

    fn first_command_step(&self) -> (next: (Step, Action))
        ensures
            next == self.first_command(),
    {
        if self.commands > 0 {
            (Step::Command(0), Action::RunCommand(0))
        } else {
            (Step::Sealing, Action::Seal)
        }
    }

    fn after_command_step(&self, j: usize) -> (next: (Step, Action))
        ensures
            next == self.after_command(j),
    {
        if self.commands > 0 && j < self.commands - 1 {
            (Step::Command(j + 1), Action::RunCommand(j + 1))
        } else {
            (Step::Sealing, Action::Seal)
        }
    }

    fn control_step(&self, event: Event) -> (next: (Step, Action))
        ensures
            next == self.control(event),
    {
        let abort = (Step::Removing(true), Action::RemoveArchive);
        match self.step {
            Step::Idle => if event != Event::Start {
                (Step::Finished(Outcome::Aborted), Action::Finish(Outcome::Aborted))
            } else if self.directories == 0 && self.commands == 0 {
                (Step::Finished(Outcome::Skipped), Action::Finish(Outcome::Skipped))
            } else {
                (Step::Creating, Action::CreateArchive)
            },
            Step::Creating => if event == Event::Succeeded {
                if self.directories > 0 {
                    (Step::Directory(0), Action::PackDirectory(0))
                } else {
                    self.first_command_step()
                }
            } else {
                abort
            },
            Step::Directory(i) => if event == Event::Succeeded {
                if self.directories > 0 && i < self.directories - 1 {
                    (Step::Directory(i + 1), Action::PackDirectory(i + 1))
                } else {
                    self.first_command_step()
                }
            } else {
                abort
            },
            Step::Command(j) => if event == Event::CapturePresent {
                (Step::Capture(j), Action::PackCapture(j))
            } else if event == Event::CaptureMissing {
                self.after_command_step(j)
            } else {
                (Step::Dropping(j, true), Action::RemoveCapture(j))
            },
            Step::Capture(j) => (
                Step::Dropping(j, event != Event::Succeeded),
                Action::RemoveCapture(j),
            ),
            Step::Dropping(j, aborting) => if event == Event::Succeeded && !aborting {
                self.after_command_step(j)
            } else {
                abort
            },
            Step::Sealing => if event == Event::Succeeded {
                if self.uploads > 0 {
                    (Step::Uploading(0), Action::Upload(0))
                } else {
                    (Step::Removing(false), Action::RemoveArchive)
                }
            } else {
                abort
            },
            Step::Uploading(k) => if event == Event::Succeeded {
                if self.uploads > 0 && k < self.uploads - 1 {
                    (Step::Uploading(k + 1), Action::Upload(k + 1))
                } else {
                    (Step::Removing(false), Action::RemoveArchive)
                }
            } else if event == Event::Failed {
                (Step::Uploading(k), Action::Upload(k))
            } else {
                abort
            },
            Step::Removing(aborting) => if event == Event::Succeeded && !aborting {
                (Step::Finished(Outcome::Done), Action::Finish(Outcome::Done))
            } else {
                (Step::Finished(Outcome::Aborted), Action::Finish(Outcome::Aborted))
            },
            Step::Finished(outcome) => (Step::Finished(outcome), Action::Finish(outcome)),
        }
    }

    /// Takes what became of the pending action and answers with the next action.
    pub fn step(&mut self, event: Event) -> (action: Action)
        ensures
            (*final(self), action) == old(self).next(event),
            old(self).wf() ==> final(self).wf(),
    {
        let (step, action) = self.control_step(event);
        match self.step {
            Step::Removing(_) => {
                if self.archive_live && event != Event::Succeeded {
                    self.archive_left = true;
                }
                self.archive_live = false;
            },
            Step::Dropping(_, _) => {
                if event != Event::Succeeded {
                    self.capture_left = self.capture_live;
                }
                self.capture_live = None;
            },
            Step::Command(_) => {
                if event == Event::CaptureMissing {
                    self.capture_live = None;
                }
            },
            _ => {},
        }
        match action {
            Action::CreateArchive => {
                self.archive_live = true;
            },
            Action::RunCommand(j) => {
                self.capture_live = Some(j);
            },
            _ => {},
        }
        self.step = step;
        action
    }
}

/// The state after a sequence of events, each answered in turn.
pub open spec fn run(start: Pipeline, events: Seq<Event>) -> Pipeline
    decreases events.len(),
{
    if events.len() == 0 {
        start
    } else {
        run(start, events.drop_last()).next(events.last()).0
    }
}

/// Whether every deletion that was asked for in the course of the events succeeded.
pub open spec fn deletions_succeed(start: Pipeline, events: Seq<Event>) -> bool
    decreases events.len(),
{
    events.len() == 0 || {
        let before = run(start, events.drop_last());
        &&& deletions_succeed(start, events.drop_last())
        &&& (before.pending() is Some && (before.pending()->0 is RemoveArchive
            || before.pending()->0 is RemoveCapture)) ==> events.last() == Event::Succeeded
    }
}

/// A step keeps the record of transient files in agreement with the state.
pub proof fn lemma_next_keeps_wf(pipeline: Pipeline, event: Event)
    requires
        pipeline.wf(),
    ensures
        pipeline.next(event).0.wf(),
{
}

/// Whatever the events of a run are, once the run has ended no transient file is on
/// record as possibly existing: the archive file and every capture file has been
/// deleted, or was never left by its command, or is on record as left behind because
/// its deletion failed.
pub proof fn lemma_ended_run_holds_no_file(
    directories: usize,
    commands: usize,
    uploads: usize,
    events: Seq<Event>,
)
    ensures
        ({
            let start = Pipeline {
                directories,
                commands,
                uploads,
                step: Step::Idle,
                archive_live: false,
                capture_live: None,
                archive_left: false,
                capture_left: None,
            };
            let end = run(start, events);
            end.wf() && (end.finished() ==> !end.archive_live && end.capture_live is None)
        }),
    decreases events.len(),
{
    if events.len() > 0 {
        lemma_ended_run_holds_no_file(directories, commands, uploads, events.drop_last());
        let start = Pipeline {
            directories,
            commands,
            uploads,
            step: Step::Idle,
            archive_live: false,
            capture_live: None,
            archive_left: false,
            capture_left: None,
        };
        lemma_next_keeps_wf(run(start, events.drop_last()), events.last());
    }
}

/// After a run in which every deletion that was asked for succeeded, no transient file
/// remains: once the run has ended, with success or aborted, neither the archive file
/// nor a capture file may exist, and none is on record as left behind.
pub proof fn lemma_ended_run_leaves_no_file(
    directories: usize,
    commands: usize,
    uploads: usize,
    events: Seq<Event>,
)
    requires
        deletions_succeed(
            Pipeline {
                directories,
                commands,
                uploads,
                step: Step::Idle,
                archive_live: false,
                capture_live: None,
                archive_left: false,
                capture_left: None,
            },
            events,
        ),
    ensures
        ({
            let start = Pipeline {
                directories,
                commands,
                uploads,
                step: Step::Idle,
                archive_live: false,
                capture_live: None,
                archive_left: false,
                capture_left: None,
            };
            let end = run(start, events);
            &&& !end.archive_left
            &&& end.capture_left is None
            &&& end.finished() ==> !end.archive_live && end.capture_live is None
        }),
    decreases events.len(),
{
    lemma_ended_run_holds_no_file(directories, commands, uploads, events);
    if events.len() > 0 {
        lemma_ended_run_leaves_no_file(directories, commands, uploads, events.drop_last());
    }
}

/// The place of a phase in the course of a run.
pub open spec fn rank(phase: Phase) -> nat {
    match phase {
        Phase::Init => 0,
        Phase::Packing => 1,
        Phase::Sealed => 2,
        Phase::Uploading => 3,
        Phase::Done => 4,
        Phase::Aborted => 5,
    }
}

/// A run moves forward through its phases or is aborted; an aborted run stays aborted,
/// and a run that has ended stays as it is.
pub proof fn lemma_phases_move_forward(pipeline: Pipeline, event: Event)
    ensures
        ({
            let after = pipeline.next(event).0;
            &&& rank(after.spec_phase()) >= rank(pipeline.spec_phase())
            &&& pipeline.spec_phase() == Phase::Aborted ==> after.spec_phase() == Phase::Aborted
            &&& pipeline.finished() ==> after == pipeline
        }),
{
}

/// A failed upload changes nothing: the same upload is asked for again, however often
/// it has failed before.
pub proof fn lemma_failed_upload_is_asked_again(pipeline: Pipeline, k: usize)
    requires
        pipeline.step == Step::Uploading(k),
    ensures
        pipeline.next(Event::Failed) == (pipeline, Action::Upload(k)),
{
}

/// Directory actions are packed before any command is run, and nothing is packed or run
/// once the archive is sealed: after a step, a directory action is pending only if the
/// run was creating the archive or packing a directory action of a lower position, and
/// a command action only if the run was not yet sealing.
pub proof fn lemma_actions_come_in_order(pipeline: Pipeline, event: Event)
    requires
        pipeline.wf(),
    ensures
        ({
            let after = pipeline.next(event).0;
            &&& after.step matches Step::Directory(i) ==> (pipeline.step is Creating && i == 0)
                || (pipeline.step matches Step::Directory(h) && i == h + 1)
            &&& after.step matches Step::Command(j) ==> {
                ||| pipeline.step is Creating && j == 0 && pipeline.directories == 0
                ||| pipeline.step matches Step::Directory(h) && j == 0 && h + 1
                    == pipeline.directories
                ||| pipeline.step matches Step::Command(h) && j == h + 1
                ||| pipeline.step matches Step::Dropping(h, _) && j == h + 1
            }
            &&& after.step matches Step::Uploading(k) ==> {
                ||| pipeline.step is Sealing && k == 0
                ||| pipeline.step matches Step::Uploading(h) && (k == h || k == h + 1)
            }
        }),
{
}

/// A command that leaves no capture file does not make the run fail, and nothing of it
/// is packed: the run goes on with the next command or with the sealing of the archive.
pub proof fn lemma_missing_capture_is_passed_over(pipeline: Pipeline, j: usize)
    requires
        pipeline.wf(),
        pipeline.step == Step::Command(j),
    ensures
        ({
            let (after, action) = pipeline.next(Event::CaptureMissing);
            &&& after.spec_phase() != Phase::Aborted
            &&& after.capture_live != Some(j)
            &&& action != Action::PackCapture(j)
            &&& if j + 1 < pipeline.commands {
                action == Action::RunCommand((j + 1) as usize)
            } else {
                action == Action::Seal
            }
        }),
{
}

} // verus!
