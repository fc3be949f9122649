//! The operations of the control channel, as state machines: the embedder
//! performs each [`Task`] on the microVM or the file system and hands back the
//! [`Event`] that it came to, until the job has its [`Reply`].

use vstd::prelude::*;

use crate::control::{capture_failed, fork_rolled_back, listed, save_failed, GenerationFile};
use crate::control::{occurs, Operation, Reply};
use crate::manifest::{
    encode_fork_manifest, encode_guardian_manifest, encode_portable_manifest, fork_encoded,
    fork_regions, guardian_encoded, memory_image_len, portable_encoded, total_len, ForkRegion,
    Guardian, GuardianFault, GuardianGenerationDesc, MemfdRegionDesc, MemoryRegionDesc,
};
use crate::snapshot::{
    parse_block_pivots, pivot_texts, pivots_from, publish_steps, PivotFault, PublishStep,
};
use crate::text::{join2, join3, joined};

verus! {

/// Something for the embedder to do. What a task is about, its directory or its
/// id, is the job's argument.
#[derive(Debug, Clone, Copy, PartialEq, Eq, Structural)]
pub enum Task {
    Pause,
    Resume,
    /// Why the RAM pager failed, if it did.
    PagerFailure,
    RunState,
    BalloonPages,
    BalloonSet(u32),
    /// Pause, and capture the state and an image of RAM in memory.
    Checkpoint,
    /// Keep what was captured under the id.
    Stash,
    /// Take what was kept under the id.
    Unstash,
    RestoreStashed,
    /// Create the directory, which must not exist.
    CreateDir,
    /// Create the directory and its parents, where they are missing.
    CreateDirs,
    /// Create the memory image, under its partial name.
    CreateMemory,
    /// Pause, capture the state, and write RAM to the memory image.
    Capture,
    /// Whether a save is prepared.
    PendingSaves,
    /// Pause, capture the state, and retain RAM without writing it.
    CaptureDeferred,
    /// Keep what was captured under the directory.
    KeepPrepared,
    /// Take what was kept under the directory.
    TakePrepared,
    /// Go on in a thread of its own.
    StartWorker,
    /// Write the retained RAM to the memory image.
    SerializeMemory,
    Publish(PublishStep),
    /// Remove the directory and what is in it; whether that works is no matter.
    RemoveDir,
    /// Pause for good, and capture the state.
    ForkCheckpoint,
    WriteCheckpoint,
    /// Write the job's manifest under its own name at once.
    WriteManifest,
    /// Undo the fork that was captured or read.
    Rollback,
    /// Write the captured state, so that it is not lost.
    PreserveCheckpoint,
    RemoveCheckpoint,
    RemoveManifest,
    ReadPivots,
    /// Find the full path of the pivot of this number.
    ResolvePivot(usize),
    /// Capture a generation while the source goes on.
    ForkContinue,
    /// Write the captured state under its own name at once.
    CommitCheckpoint,
    /// Let the guardian outlive the job.
    Disarm,
    ReadCheckpoint,
    DecodeCheckpoint,
}

/// What a task came to.
#[derive(Debug)]
pub enum Event {
    Done,
    Failed(String),
    /// There was nothing to take or to remove.
    Missing,
    Pending(bool),
    Text(String),
    NoText,
    Pages { target: u32, actual: u32 },
    Bytes(u64),
    Regions(Vec<MemoryRegionDesc>),
    Memfds(Vec<MemfdRegionDesc>),
    Generation(GuardianGenerationDesc),
    /// RAM is not backed by files.
    NoMemfd,
    Unreadable { path: String, error: String },
}

/// What comes next.
#[derive(Debug)]
pub enum Action {
    Do(Task),
    Answer(Reply),
}

/// The RAM that was captured.
#[derive(Debug)]
pub enum Layout {
    Unknown,
    Portable(Vec<MemoryRegionDesc>),
    Fork(Vec<MemfdRegionDesc>),
    Guardian(GuardianGenerationDesc),
}

/// The model of a [`Layout`].
pub enum Ram {
    Unknown,
    Portable(Seq<MemoryRegionDesc>),
    Fork(Seq<ForkRegion>),
    Guardian(Guardian),
}

impl View for Layout {
    type V = Ram;

    open spec fn view(&self) -> Ram {
        match self {
            Layout::Unknown => Ram::Unknown,
            Layout::Portable(v) => Ram::Portable(v@),
            Layout::Fork(v) => Ram::Fork(fork_regions(v@)),
            Layout::Guardian(d) => Ram::Guardian(d@),
        }
    }
}

/// Where a job stands: the task whose event it waits for.
#[derive(Debug, Clone, Copy, PartialEq, Eq, Structural)]
pub enum Phase {
    Pausing,
    Resuming,
    Pager,
    State,
    Balloon,
    Ballooning(u32),
    Checkpointing,
    Stashing(u64),
    Unstashing,
    Restoring,
    SaveDir,
    SaveMemory,
    SaveCapture,
    SavePublish(PublishStep),
    SaveResume,
    SaveRemove,
    PreparePending,
    PrepareDir,
    PrepareCapture,
    PrepareRemove,
    PrepareKeep,
    FinishWorker,
    FinishTake,
    FinishMemory,
    FinishSerialize,
    FinishPublish(PublishStep),
    FinishRemove,
    CancelTake,
    CancelRemove,
    ForkDirs,
    ForkCapture,
    ForkCheckpoint,
    ForkManifest,
    ForkRollback,
    ForkPreserve,
    ForkRemoveCheckpoint,
    ForkRemoveManifest,
    ContinueDirs,
    ContinuePivots,
    ContinueResolve(usize),
    ContinueFork,
    ContinueCheckpoint,
    ContinueManifest,
    ContinueUndo,
    ContinueDisarm,
    UndoRead,
    UndoDecode,
    UndoApply,
    Over,
}

/// The step after this one.
pub open spec fn next_publish(step: PublishStep) -> Option<PublishStep> {
    match step {
        PublishStep::SyncMemory => Some(PublishStep::CreateCheckpoint),
        PublishStep::CreateCheckpoint => Some(PublishStep::WriteCheckpoint),
        PublishStep::WriteCheckpoint => Some(PublishStep::SyncCheckpoint),
        PublishStep::SyncCheckpoint => Some(PublishStep::CreateManifest),
        PublishStep::CreateManifest => Some(PublishStep::WriteManifest),
        PublishStep::WriteManifest => Some(PublishStep::SyncManifest),
        PublishStep::SyncManifest => Some(PublishStep::PublishMemory),
        PublishStep::PublishMemory => Some(PublishStep::PublishCheckpoint),
        PublishStep::PublishCheckpoint => Some(PublishStep::PublishManifest),
        PublishStep::PublishManifest => None,
    }
}

fn after_publish(step: PublishStep) -> (r: Option<PublishStep>)
    ensures
        r == next_publish(step),
{
    match step {
        PublishStep::SyncMemory => Some(PublishStep::CreateCheckpoint),
        PublishStep::CreateCheckpoint => Some(PublishStep::WriteCheckpoint),
        PublishStep::WriteCheckpoint => Some(PublishStep::SyncCheckpoint),
        PublishStep::SyncCheckpoint => Some(PublishStep::CreateManifest),
        PublishStep::CreateManifest => Some(PublishStep::WriteManifest),
        PublishStep::WriteManifest => Some(PublishStep::SyncManifest),
        PublishStep::SyncManifest => Some(PublishStep::PublishMemory),
        PublishStep::PublishMemory => Some(PublishStep::PublishCheckpoint),
        PublishStep::PublishCheckpoint => Some(PublishStep::PublishManifest),
        PublishStep::PublishManifest => None,
    }
}

/// A job under way.
#[derive(Debug)]
pub struct Job {
    arg: String,
    pid: i32,
    paged: bool,
    note: String,
    cause: Option<String>,
    errors: Vec<String>,
    pivots: Vec<(String, String)>,
    fault: Option<PivotFault>,
    layout: Layout,
    phase: Phase,
}

/// The model of a [`Job`].
#[verifier::ext_equal]
pub struct JobState {
    /// The directory or id that the job is about.
    pub arg: Seq<char>,
    /// The process of the monitor.
    pub pid: i32,
    /// Whether a generation may have a guardian.
    pub paged: bool,
    /// What went wrong first.
    pub note: Seq<char>,
    /// What went wrong while undoing.
    pub cause: Option<Seq<char>>,
    /// What went wrong while cleaning up.
    pub errors: Seq<Seq<char>>,
    /// The pivots: id and path.
    pub pivots: Seq<(Seq<char>, Seq<char>)>,
    /// What is wrong with the line after the last pivot.
    pub fault: Option<PivotFault>,
    /// The RAM that was captured.
    pub ram: Ram,
    pub phase: Phase,
}

/// What the texts say.
pub open spec fn texts(v: Seq<String>) -> Seq<Seq<char>> {
    Seq::new(v.len(), |i: int| v[i]@)
}

impl View for Job {
    type V = JobState;

    closed spec fn view(&self) -> JobState {
        JobState {
            arg: self.arg@,
            pid: self.pid,
            paged: self.paged,
            note: self.note@,
            cause: crate::config::text_in(self.cause),
            errors: texts(self.errors@),
            pivots: pivot_texts(self.pivots@),
            fault: self.fault,
            ram: self.layout@,
            phase: self.phase,
        }
    }
}

impl JobState {
    /// A job whose image fits, and whose pivot exists.
    pub open spec fn wf(self) -> bool {
        &&& self.ram matches Ram::Portable(v) ==> total_len(v) <= u64::MAX
        &&& self.phase matches Phase::ContinueResolve(i) ==> i < self.pivots.len()
        &&& (self.phase is SavePublish || self.phase is FinishPublish) ==> self.ram is Portable
        &&& (self.phase is ForkManifest || self.phase is ForkCheckpoint) ==> self.ram is Fork
        &&& (self.phase is ContinueManifest || self.phase is ContinueCheckpoint)
            ==> self.ram is Fork || self.ram is Guardian
        &&& self.phase is ContinueDisarm ==> self.ram is Guardian
        &&& self.phase is ForkPreserve ==> self.cause is Some
        &&& self.phase is ContinueUndo ==> self.ram is Fork || self.ram is Guardian
    }

    pub open spec fn at(self, phase: Phase) -> JobState {
        JobState { phase, ..self }
    }

    /// The events that the phase waits for.
    pub open spec fn takes(self, e: Event) -> bool {
        match self.phase {
            Phase::Pager => e is Text || e is NoText,
            Phase::State => e is Text,
            Phase::Balloon => e is Pages || e is Failed,
            Phase::Checkpointing => e is Bytes || e is Failed,
            Phase::Stashing(_)
            | Phase::PrepareKeep
            | Phase::SaveRemove
            | Phase::PrepareRemove
            | Phase::FinishRemove
            | Phase::CancelRemove
            | Phase::ContinueDisarm => e is Done,
            Phase::Unstashing | Phase::FinishTake | Phase::CancelTake => e is Done || e is Missing,
            Phase::SaveCapture | Phase::FinishSerialize => e is Failed || (e matches Event::Regions(
                v,
            ) && total_len(v@) <= u64::MAX),
            Phase::PreparePending => e is Pending,
            Phase::ForkCapture => e is Memfds || e is NoMemfd || e is Failed,
            Phase::ForkRemoveCheckpoint | Phase::ForkRemoveManifest | Phase::ContinueUndo => e is Done
                || e is Missing || e is Failed,
            Phase::ContinuePivots => e is Failed || (e matches Event::Text(t) && t@.len()
                < u64::MAX),
            Phase::ContinueResolve(_) => e is Text || e is Failed,
            Phase::ContinueFork => e is Memfds || e is Generation || e is NoMemfd || e is Failed,
            Phase::UndoRead => e is Done || e is Unreadable,
            Phase::Over => false,
            _ => e is Done || e is Failed,
        }
    }
}

// ---------------------------------------------------------------------------
// How a job goes on.
// ---------------------------------------------------------------------------

/// The job goes on with the task.
pub open spec fn doing(s: JobState, s2: JobState, a: Action, phase: Phase, task: Task) -> bool {
    s2 == s.at(phase) && a == Action::Do(task)
}

/// The job is over, with the error.
pub open spec fn failing(s: JobState, s2: JobState, a: Action, text: Seq<char>) -> bool {
    s2 == s.at(Phase::Over) && (a matches Action::Answer(Reply::Failed(m)) && m@ == text)
}

/// The job is over, with a reply that holds nothing.
pub open spec fn answering(s: JobState, s2: JobState, a: Action, reply: Reply) -> bool {
    s2 == s.at(Phase::Over) && a == Action::Answer(reply)
}

/// The directory could not be created.
pub open spec fn no_directory(s: JobState, s2: JobState, a: Action, e: Seq<char>) -> bool {
    s2 == s.at(Phase::Over) && (a matches Action::Answer(Reply::CreateFailed { dir, error })
        && dir@ == s.arg && error@ == e)
}

/// A task on the running microVM has come to `e`.
pub open spec fn live_follows(s: JobState, e: Event, s2: JobState, a: Action) -> bool {
    let over = s2 == s.at(Phase::Over);
    match (s.phase, e) {
        (Phase::Pausing, Event::Done) => answering(s, s2, a, Reply::Paused),
        (Phase::Pausing, Event::Failed(t)) => failing(s, s2, a, t@),
        (Phase::Resuming, Event::Done) => answering(s, s2, a, Reply::Running),
        (Phase::Resuming, Event::Failed(t)) => failing(s, s2, a, t@),
        (Phase::Pager, Event::Text(t)) => over && (a matches Action::Answer(Reply::PagerFailed(m))
            && m@ == t@),
        (Phase::Pager, Event::NoText) => doing(s, s2, a, Phase::State, Task::RunState),
        (Phase::State, Event::Text(t)) => over && (a matches Action::Answer(Reply::State(m))
            && m@ == t@),
        (Phase::Balloon, Event::Pages { target, actual }) => answering(
            s,
            s2,
            a,
            Reply::Balloon { target_pages: target, actual_pages: actual },
        ),
        (Phase::Balloon, Event::Failed(t)) => over && (a matches Action::Answer(Reply::NoDevice(m))
            && m@ == t@),
        (Phase::Ballooning(mib), Event::Done) => answering(s, s2, a, Reply::BalloonTarget(mib)),
        (Phase::Ballooning(_), Event::Failed(t)) => over && (a matches Action::Answer(
            Reply::NoDevice(m),
        ) && m@ == t@),
        (Phase::Checkpointing, Event::Bytes(n)) => doing(s, s2, a, Phase::Stashing(n), Task::Stash),
        (Phase::Checkpointing, Event::Failed(t)) => over && (a matches Action::Answer(
            Reply::CheckpointFailed(m),
        ) && m@ == t@),
        (Phase::Stashing(n), Event::Done) => over && (a matches Action::Answer(
            Reply::Checkpointed { id, bytes },
        ) && id@ == s.arg && bytes == n),
        (Phase::Unstashing, Event::Missing) => over && (a matches Action::Answer(
            Reply::NoCheckpoint(id),
        ) && id@ == s.arg),
        (Phase::Unstashing, Event::Done) => doing(
            s,
            s2,
            a,
            Phase::Restoring,
            Task::RestoreStashed,
        ),
        (Phase::Restoring, Event::Done) => over && (a matches Action::Answer(Reply::Restored(id))
            && id@ == s.arg),
        (Phase::Restoring, Event::Failed(t)) => over && (a matches Action::Answer(
            Reply::RestoreFailed(m),
        ) && m@ == t@),
        _ => false,
    }
}

/// A save failed: the microVM is resumed, the directory removed.
pub open spec fn save_undone(s: JobState, s2: JobState, a: Action, note: Seq<char>) -> bool {
    s2 == (JobState { note, ..s }).at(Phase::SaveResume) && a == Action::Do(Task::Resume)
}

/// The save is published.
pub open spec fn saved(s: JobState, s2: JobState, a: Action, still: bool) -> bool {
    s2 == s.at(Phase::Over) && (s.ram matches Ram::Portable(v) && (a matches Action::Answer(
        Reply::Saved { bytes, regions, paused },
    ) && bytes == total_len(v) && regions == v.len() && paused == still))
}

/// A task of a save has come to `e`.
pub open spec fn save_follows(s: JobState, e: Event, s2: JobState, a: Action) -> bool {
    match (s.phase, e) {
        (Phase::SaveDir, Event::Done) => doing(s, s2, a, Phase::SaveMemory, Task::CreateMemory),
        (Phase::SaveDir, Event::Failed(t)) => no_directory(s, s2, a, t@),
        (Phase::SaveMemory, Event::Done) => doing(s, s2, a, Phase::SaveCapture, Task::Capture),
        (Phase::SaveMemory, Event::Failed(t)) => save_undone(
            s,
            s2,
            a,
            "create memory image: "@ + t@,
        ),
        (Phase::SaveCapture, Event::Regions(v)) => doing(
            (JobState { ram: Ram::Portable(v@), ..s }),
            s2,
            a,
            Phase::SavePublish(PublishStep::SyncMemory),
            Task::Publish(PublishStep::SyncMemory),
        ),
        (Phase::SaveCapture, Event::Failed(t)) => save_undone(s, s2, a, "capture VM: "@ + t@),
        (Phase::SavePublish(step), Event::Done) => match next_publish(step) {
            Some(next) => doing(s, s2, a, Phase::SavePublish(next), Task::Publish(next)),
            None => saved(s, s2, a, true),
        },
        (Phase::SavePublish(step), Event::Failed(t)) => save_undone(
            s,
            s2,
            a,
            step.label() + ": "@ + t@,
        ),
        (Phase::SaveResume, Event::Done) => doing(
            (JobState { cause: None, ..s }),
            s2,
            a,
            Phase::SaveRemove,
            Task::RemoveDir,
        ),
        (Phase::SaveResume, Event::Failed(t)) => doing(
            (JobState { cause: Some(t@), ..s }),
            s2,
            a,
            Phase::SaveRemove,
            Task::RemoveDir,
        ),
        (Phase::SaveRemove, Event::Done) => match s.cause {
            Some(c) => s2 == s.at(Phase::Over) && (a matches Action::Answer(
                Reply::ResumeAfterSaveFailed { error, resume_error },
            ) && error@ == s.note && resume_error@ == c),
            None => failing(s, s2, a, s.note),
        },
        _ => false,
    }
}

/// A task of a deferred save has come to `e`.
pub open spec fn deferred_follows(s: JobState, e: Event, s2: JobState, a: Action) -> bool {
    match (s.phase, e) {
        (Phase::PreparePending, Event::Pending(pending)) => if pending {
            answering(s, s2, a, Reply::SavePending)
        } else {
            doing(s, s2, a, Phase::PrepareDir, Task::CreateDir)
        },
        (Phase::PrepareDir, Event::Done) => doing(
            s,
            s2,
            a,
            Phase::PrepareCapture,
            Task::CaptureDeferred,
        ),
        (Phase::PrepareDir, Event::Failed(t)) => no_directory(s, s2, a, t@),
        (Phase::PrepareCapture, Event::Done) => doing(
            s,
            s2,
            a,
            Phase::PrepareKeep,
            Task::KeepPrepared,
        ),
        (Phase::PrepareCapture, Event::Failed(t)) => doing(
            (JobState { note: t@, ..s }),
            s2,
            a,
            Phase::PrepareRemove,
            Task::RemoveDir,
        ),
        (Phase::PrepareRemove, Event::Done) => s2 == s.at(Phase::Over) && if occurs(
            s.note,
            "deferred durable save requires"@,
        ) {
            a matches Action::Answer(Reply::NotSupported(m)) && m@ == s.note
        } else {
            a matches Action::Answer(Reply::CaptureFailed(m)) && m@ == s.note
        },
        (Phase::PrepareKeep, Event::Done) => answering(s, s2, a, Reply::Prepared),
        (Phase::FinishWorker, Event::Done) => doing(
            s,
            s2,
            a,
            Phase::FinishTake,
            Task::TakePrepared,
        ),
        (Phase::FinishWorker, Event::Failed(t)) => s2 == s.at(Phase::Over) && (
        a matches Action::Answer(Reply::StartSaveFailed(m)) && m@ == t@),
        (Phase::FinishTake, Event::Missing) => answering(s, s2, a, Reply::NoPreparedSave),
        (Phase::FinishTake, Event::Done) => doing(
            s,
            s2,
            a,
            Phase::FinishMemory,
            Task::CreateMemory,
        ),
        (Phase::FinishMemory, Event::Done) => doing(
            s,
            s2,
            a,
            Phase::FinishSerialize,
            Task::SerializeMemory,
        ),
        (Phase::FinishMemory, Event::Failed(t)) => finish_undone(
            s,
            s2,
            a,
            "create memory image: "@ + t@,
        ),
        (Phase::FinishSerialize, Event::Regions(v)) => doing(
            (JobState { ram: Ram::Portable(v@), ..s }),
            s2,
            a,
            Phase::FinishPublish(PublishStep::SyncMemory),
            Task::Publish(PublishStep::SyncMemory),
        ),
        (Phase::FinishSerialize, Event::Failed(t)) => finish_undone(
            s,
            s2,
            a,
            "serialize retained RAM generation: "@ + t@,
        ),
        (Phase::FinishPublish(step), Event::Done) => match next_publish(step) {
            Some(next) => doing(s, s2, a, Phase::FinishPublish(next), Task::Publish(next)),
            None => saved(s, s2, a, false),
        },
        (Phase::FinishPublish(step), Event::Failed(t)) => finish_undone(
            s,
            s2,
            a,
            step.label() + ": "@ + t@,
        ),
        (Phase::FinishRemove, Event::Done) => failing(s, s2, a, s.note),
        (Phase::CancelTake, Event::Missing) => answering(s, s2, a, Reply::NoSaveToCancel),
        (Phase::CancelTake, Event::Done) => doing(s, s2, a, Phase::CancelRemove, Task::RemoveDir),
        (Phase::CancelRemove, Event::Done) => answering(s, s2, a, Reply::Canceled),
        _ => false,
    }
}

/// Finishing a save failed: the directory is removed.
pub open spec fn finish_undone(s: JobState, s2: JobState, a: Action, note: Seq<char>) -> bool {
    s2 == (JobState { note, ..s }).at(Phase::FinishRemove) && a == Action::Do(Task::RemoveDir)
}

/// A fork failed: it is rolled back.
pub open spec fn fork_undone(s: JobState, s2: JobState, a: Action, note: Seq<char>) -> bool {
    s2 == (JobState { note, ..s }).at(Phase::ForkRollback) && a == Action::Do(Task::Rollback)
}

/// The errors of cleaning up, after one more file.
pub open spec fn with_leftover(errors: Seq<Seq<char>>, name: Seq<char>, e: Event) -> Seq<Seq<char>> {
    match e {
        Event::Failed(t) => errors.push("remove "@ + name + (": "@ + t@)),
        _ => errors,
    }
}

/// The fork could not be rolled back.
pub open spec fn fork_lost(s: JobState, s2: JobState, a: Action, how: Seq<char>) -> bool {
    s2 == s.at(Phase::Over) && (a matches Action::Answer(
        Reply::ForkLost { failure, error, recovery },
    ) && failure@ == s.note && Some(error@) == s.cause && recovery@ == how)
}

/// The fork was rolled back.
pub open spec fn fork_restored(s: JobState, s2: JobState, a: Action) -> bool {
    if s.errors.len() == 0 {
        failing(s, s2, a, s.note)
    } else {
        s2 == s.at(Phase::Over) && (a matches Action::Answer(Reply::ForkUncleaned { failure, errors })
            && failure@ == s.note && errors@ == joined(s.errors, ", "@))
    }
}

/// A task of a fork has come to `e`.
pub open spec fn fork_follows(s: JobState, e: Event, s2: JobState, a: Action) -> bool {
    match (s.phase, e) {
        (Phase::ForkDirs, Event::Done) => doing(
            s,
            s2,
            a,
            Phase::ForkCapture,
            Task::ForkCheckpoint,
        ),
        (Phase::ForkDirs, Event::Failed(t)) => no_directory(s, s2, a, t@),
        (Phase::ForkCapture, Event::Memfds(v)) => doing(
            (JobState { ram: Ram::Fork(fork_regions(v@)), ..s }),
            s2,
            a,
            Phase::ForkCheckpoint,
            Task::WriteCheckpoint,
        ),
        (Phase::ForkCapture, Event::NoMemfd) => answering(
            s,
            s2,
            a,
            Reply::NoMemfd { golden: true },
        ),
        (Phase::ForkCapture, Event::Failed(t)) => s2 == s.at(Phase::Over) && (
        a matches Action::Answer(Reply::ForkFailed { continuing, error }) && !continuing && error@
            == t@),
        (Phase::ForkCheckpoint, Event::Done) => doing(
            s,
            s2,
            a,
            Phase::ForkManifest,
            Task::WriteManifest,
        ),
        (Phase::ForkCheckpoint, Event::Failed(t)) => fork_undone(
            s,
            s2,
            a,
            "write checkpoint: "@ + t@,
        ),
        (Phase::ForkManifest, Event::Done) => s2 == s.at(Phase::Over) && (s.ram matches Ram::Fork(v)
            && (a matches Action::Answer(Reply::Forked { pid, regions }) && pid == s.pid && regions
            == v.len())),
        (Phase::ForkManifest, Event::Failed(t)) => fork_undone(s, s2, a, "write manifest: "@ + t@),
        (Phase::ForkRollback, Event::Done) => doing(
            s,
            s2,
            a,
            Phase::ForkRemoveCheckpoint,
            Task::RemoveCheckpoint,
        ),
        (Phase::ForkRollback, Event::Failed(t)) => doing(
            (JobState { cause: Some(t@), ..s }),
            s2,
            a,
            Phase::ForkPreserve,
            Task::PreserveCheckpoint,
        ),
        (Phase::ForkPreserve, Event::Done) => fork_lost(
            s,
            s2,
            a,
            "checkpoint preserved at "@ + s.arg,
        ),
        (Phase::ForkPreserve, Event::Failed(t)) => fork_lost(
            s,
            s2,
            a,
            "checkpoint preservation at "@ + s.arg + (" failed: "@ + t@),
        ),
        (Phase::ForkRemoveCheckpoint, _) => doing(
            (JobState { errors: with_leftover(s.errors, "checkpoint.bin"@, e), ..s }),
            s2,
            a,
            Phase::ForkRemoveManifest,
            Task::RemoveManifest,
        ),
        (Phase::ForkRemoveManifest, _) => fork_restored(
            (JobState { errors: with_leftover(s.errors, "manifest.bin"@, e), ..s }),
            s2,
            a,
        ),
        _ => false,
    }
}

/// The pivots could not be read.
pub open spec fn bad_pivots(s: JobState, s2: JobState, a: Action, text: Seq<char>) -> bool {
    s2 == s.at(Phase::Over) && (a matches Action::Answer(Reply::BlockPivots(m)) && m@ == text)
}

/// The pivots before number `i` are resolved.
pub open spec fn resolving(s: JobState, s2: JobState, a: Action, i: int) -> bool {
    if i < s.pivots.len() {
        doing(
            s,
            s2,
            a,
            Phase::ContinueResolve(i as usize),
            Task::ResolvePivot(i as usize),
        )
    } else {
        match s.fault {
            Some(fault) => bad_pivots(s, s2, a, fault.text()),
            None => doing(s, s2, a, Phase::ContinueFork, Task::ForkContinue),
        }
    }
}

/// The number of regions of a captured RAM.
pub open spec fn region_count(ram: Ram) -> nat {
    match ram {
        Ram::Unknown => 0,
        Ram::Portable(v) => v.len(),
        Ram::Fork(v) => v.len(),
        Ram::Guardian(g) => g.regions.len(),
    }
}

/// The generation is complete.
pub open spec fn forked(s: JobState, s2: JobState, a: Action, by: i32, kept: bool) -> bool {
    s2 == s.at(Phase::Over) && (a matches Action::Answer(
        Reply::ForkedGeneration { guardian, pid, regions, disks },
    ) && guardian == kept && pid == by && regions == region_count(s.ram) && disks
        == s.pivots.len())
}

/// The source goes on, but the generation is not complete.
pub open spec fn source_resumed(
    s: JobState,
    s2: JobState,
    a: Action,
    file: GenerationFile,
    text: Seq<char>,
) -> bool {
    s2 == s.at(Phase::Over) && (a matches Action::Answer(Reply::SourceResumed { what, error })
        && what == file && error@ == text)
}

/// A task of a continuing fork has come to `e`.
pub open spec fn continue_follows(s: JobState, e: Event, s2: JobState, a: Action) -> bool {
    match (s.phase, e) {
        (Phase::ContinueDirs, Event::Done) => doing(
            s,
            s2,
            a,
            Phase::ContinuePivots,
            Task::ReadPivots,
        ),
        (Phase::ContinueDirs, Event::Failed(t)) => no_directory(s, s2, a, t@),
        (Phase::ContinuePivots, Event::Failed(t)) => bad_pivots(s, s2, a, t@),
        (Phase::ContinuePivots, Event::Text(t)) => {
            let (pivots, fault) = pivots_from(t@, 1, Seq::empty());
            resolving((JobState { pivots, fault, ..s }), s2, a, 0)
        },
        (Phase::ContinueResolve(_), Event::Failed(t)) => bad_pivots(s, s2, a, t@),
        (Phase::ContinueResolve(i), Event::Text(t)) => resolving(
            (JobState { pivots: s.pivots.update(i as int, (s.pivots[i as int].0, t@)), ..s }),
            s2,
            a,
            i + 1,
        ),
        (Phase::ContinueFork, Event::Memfds(v)) => doing(
            (JobState { ram: Ram::Fork(fork_regions(v@)), ..s }),
            s2,
            a,
            Phase::ContinueCheckpoint,
            Task::CommitCheckpoint,
        ),
        (Phase::ContinueFork, Event::Generation(d)) => doing(
            (JobState { ram: Ram::Guardian(d@), ..s }),
            s2,
            a,
            Phase::ContinueCheckpoint,
            Task::CommitCheckpoint,
        ),
        (Phase::ContinueFork, Event::NoMemfd) => answering(
            s,
            s2,
            a,
            Reply::NoMemfd { golden: false },
        ),
        (Phase::ContinueFork, Event::Failed(t)) => s2 == s.at(Phase::Over) && (
        a matches Action::Answer(Reply::ForkFailed { continuing, error }) && continuing && error@
            == t@),
        (Phase::ContinueCheckpoint, Event::Done) => doing(
            s,
            s2,
            a,
            Phase::ContinueManifest,
            Task::WriteManifest,
        ),
        (Phase::ContinueCheckpoint, Event::Failed(t)) => source_resumed(
            s,
            s2,
            a,
            GenerationFile::Checkpoint,
            t@,
        ),
        (Phase::ContinueManifest, Event::Done) => match s.ram {
            Ram::Guardian(_) => doing(s, s2, a, Phase::ContinueDisarm, Task::Disarm),
            _ => forked(s, s2, a, s.pid, false),
        },
        (Phase::ContinueManifest, Event::Failed(t)) => doing(
            (JobState { note: t@, ..s }),
            s2,
            a,
            Phase::ContinueUndo,
            Task::RemoveCheckpoint,
        ),
        (Phase::ContinueUndo, _) => source_resumed(
            s,
            s2,
            a,
            if s.ram is Guardian {
                GenerationFile::GuardianManifest
            } else {
                GenerationFile::Manifest
            },
            s.note,
        ),
        (Phase::ContinueDisarm, Event::Done) => s.ram matches Ram::Guardian(g) && forked(
            s,
            s2,
            a,
            g.pid,
            true,
        ),
        _ => false,
    }
}

/// A task of undoing a fork has come to `e`.
pub open spec fn undo_follows(s: JobState, e: Event, s2: JobState, a: Action) -> bool {
    let over = s2 == s.at(Phase::Over);
    match (s.phase, e) {
        (Phase::UndoRead, Event::Done) => doing(
            s,
            s2,
            a,
            Phase::UndoDecode,
            Task::DecodeCheckpoint,
        ),
        (Phase::UndoRead, Event::Unreadable { path, error }) => over && (a matches Action::Answer(
            Reply::RollbackRead { path: p, error: x },
        ) && p@ == path@ && x@ == error@),
        (Phase::UndoDecode, Event::Done) => doing(s, s2, a, Phase::UndoApply, Task::Rollback),
        (Phase::UndoDecode, Event::Failed(t)) => over && (a matches Action::Answer(
            Reply::RollbackDecode(m),
        ) && m@ == t@),
        (Phase::UndoApply, Event::Done) => answering(s, s2, a, Reply::Running),
        (Phase::UndoApply, Event::Failed(t)) => over && (a matches Action::Answer(
            Reply::RollbackFailed(m),
        ) && m@ == t@),
        _ => false,
    }
}

/// The groups of phases.
pub open spec fn is_live(p: Phase) -> bool {
    p is Pausing || p is Resuming || p is Pager || p is State || p is Balloon || p is Ballooning
        || p is Checkpointing || p is Stashing || p is Unstashing || p is Restoring
}

pub open spec fn is_save(p: Phase) -> bool {
    p is SaveDir || p is SaveMemory || p is SaveCapture || p is SavePublish || p is SaveResume
        || p is SaveRemove
}

pub open spec fn is_deferred(p: Phase) -> bool {
    p is PreparePending || p is PrepareDir || p is PrepareCapture || p is PrepareRemove
        || p is PrepareKeep || p is FinishWorker || p is FinishTake || p is FinishMemory
        || p is FinishSerialize || p is FinishPublish || p is FinishRemove || p is CancelTake
        || p is CancelRemove
}

pub open spec fn is_fork(p: Phase) -> bool {
    p is ForkDirs || p is ForkCapture || p is ForkCheckpoint || p is ForkManifest
        || p is ForkRollback || p is ForkPreserve || p is ForkRemoveCheckpoint
        || p is ForkRemoveManifest
}

pub open spec fn is_continue(p: Phase) -> bool {
    p is ContinueDirs || p is ContinuePivots || p is ContinueResolve || p is ContinueFork
        || p is ContinueCheckpoint || p is ContinueManifest || p is ContinueUndo
        || p is ContinueDisarm
}

/// From `s`, the event leads to `s2` and the action.
pub open spec fn follows(s: JobState, e: Event, s2: JobState, a: Action) -> bool {
    if is_live(s.phase) {
        live_follows(s, e, s2, a)
    } else if is_save(s.phase) {
        save_follows(s, e, s2, a)
    } else if is_deferred(s.phase) {
        deferred_follows(s, e, s2, a)
    } else if is_fork(s.phase) {
        fork_follows(s, e, s2, a)
    } else if is_continue(s.phase) {
        continue_follows(s, e, s2, a)
    } else {
        undo_follows(s, e, s2, a)
    }
}

// ---------------------------------------------------------------------------
// The jobs.
// ---------------------------------------------------------------------------

/// How a job starts.
pub open spec fn begins(op: Operation, pager: bool, pid: i32, s: JobState, a: Action) -> bool {
    let fresh = JobState {
        arg: s.arg,
        pid,
        paged: s.paged,
        note: Seq::empty(),
        cause: None,
        errors: Seq::empty(),
        pivots: Seq::empty(),
        fault: None,
        ram: Ram::Unknown,
        phase: s.phase,
    };
    let (phase, task, arg, paged) = match op {
        Operation::Pause => (Phase::Pausing, Task::Pause, Seq::empty(), false),
        Operation::Resume => (Phase::Resuming, Task::Resume, Seq::empty(), false),
        Operation::Status => if pager {
            (Phase::Pager, Task::PagerFailure, Seq::empty(), false)
        } else {
            (Phase::State, Task::RunState, Seq::empty(), false)
        },
        Operation::BalloonQuery => (Phase::Balloon, Task::BalloonPages, Seq::empty(), false),
        Operation::BalloonSet(mib) => (
            Phase::Ballooning(mib),
            Task::BalloonSet(mib),
            Seq::empty(),
            false,
        ),
        Operation::Checkpoint(id) => (Phase::Checkpointing, Task::Checkpoint, id@, false),
        Operation::Restore(id) => (Phase::Unstashing, Task::Unstash, id@, false),
        Operation::Save(dir) => (Phase::SaveDir, Task::CreateDir, dir@, false),
        Operation::PrepareSave(dir) => (Phase::PreparePending, Task::PendingSaves, dir@, false),
        Operation::FinishSave(dir) => (Phase::FinishWorker, Task::StartWorker, dir@, false),
        Operation::CancelSave(dir) => (Phase::CancelTake, Task::TakePrepared, dir@, false),
        Operation::Fork(dir) => (Phase::ForkDirs, Task::CreateDirs, dir@, false),
        Operation::ForkContinue { dir, paged } => (
            Phase::ContinueDirs,
            Task::CreateDirs,
            dir@,
            paged,
        ),
        Operation::RollbackFork(dir) => (Phase::UndoRead, Task::ReadCheckpoint, dir@, false),
    };
    s == fresh && s.phase == phase && s.arg == arg && s.paged == paged && a == Action::Do(task)
}

proof fn lemma_listed(v: Seq<String>)
    ensures
        listed(v) == joined(texts(v), ", "@),
    decreases v.len(),
{
    if v.len() > 1 {
        lemma_listed(v.drop_last());
        assert(texts(v).drop_last() =~= texts(v.drop_last()));
    }
}

impl Job {
    fn new(arg: String, paged: bool, pid: i32, phase: Phase, task: Task) -> (r: (Job, Action))
        ensures
            r.0@ == (JobState {
                arg: arg@,
                pid,
                paged,
                note: Seq::empty(),
                cause: None,
                errors: Seq::empty(),
                pivots: Seq::empty(),
                fault: None,
                ram: Ram::Unknown,
                phase,
            }),
            r.1 == Action::Do(task),
    {
        let job = Job {
            arg,
            pid,
            paged,
            note: String::new(),
            cause: None,
            errors: Vec::new(),
            pivots: Vec::new(),
            fault: None,
            layout: Layout::Unknown,
            phase,
        };
        assert(job@.errors =~= Seq::<Seq<char>>::empty());
        assert(job@.pivots =~= Seq::<(Seq<char>, Seq<char>)>::empty());
        assert(job@.note =~= Seq::<char>::empty());
        (job, Action::Do(task))
    }

    /// Start the operation, in the process `pid`. Only some platforms have a RAM
    /// pager.
    pub fn start(op: Operation, pager: bool, pid: i32) -> (r: (Job, Action))
        ensures
            r.0@.wf(),
            begins(op, pager, pid, r.0@, r.1),
    {
        let none = String::new();
        assert(none@ =~= Seq::<char>::empty());
        match op {
            Operation::Pause => Job::new(none, false, pid, Phase::Pausing, Task::Pause),
            Operation::Resume => Job::new(none, false, pid, Phase::Resuming, Task::Resume),
            Operation::Status => if pager {
                Job::new(none, false, pid, Phase::Pager, Task::PagerFailure)
            } else {
                Job::new(none, false, pid, Phase::State, Task::RunState)
            },
            Operation::BalloonQuery => Job::new(
                none,
                false,
                pid,
                Phase::Balloon,
                Task::BalloonPages,
            ),
            Operation::BalloonSet(mib) => Job::new(
                none,
                false,
                pid,
                Phase::Ballooning(mib),
                Task::BalloonSet(mib),
            ),
            Operation::Checkpoint(id) => Job::new(
                id,
                false,
                pid,
                Phase::Checkpointing,
                Task::Checkpoint,
            ),
            Operation::Restore(id) => Job::new(id, false, pid, Phase::Unstashing, Task::Unstash),
            Operation::Save(dir) => Job::new(dir, false, pid, Phase::SaveDir, Task::CreateDir),
            Operation::PrepareSave(dir) => Job::new(
                dir,
                false,
                pid,
                Phase::PreparePending,
                Task::PendingSaves,
            ),
            Operation::FinishSave(dir) => Job::new(
                dir,
                false,
                pid,
                Phase::FinishWorker,
                Task::StartWorker,
            ),
            Operation::CancelSave(dir) => Job::new(
                dir,
                false,
                pid,
                Phase::CancelTake,
                Task::TakePrepared,
            ),
            Operation::Fork(dir) => Job::new(dir, false, pid, Phase::ForkDirs, Task::CreateDirs),
            Operation::ForkContinue { dir, paged } => Job::new(
                dir,
                paged,
                pid,
                Phase::ContinueDirs,
                Task::CreateDirs,
            ),
            Operation::RollbackFork(dir) => Job::new(
                dir,
                false,
                pid,
                Phase::UndoRead,
                Task::ReadCheckpoint,
            ),
        }
    }

    /// The directory or id that the job is about.
    pub fn argument(&self) -> (r: &str)
        ensures
            r@ == self@.arg,
    {
        self.arg.as_str()
    }

    /// Whether a generation may have a guardian.
    pub fn paged(&self) -> (r: bool)
        ensures
            r == self@.paged,
    {
        self.paged
    }

    /// The pivots, each with its path as resolved so far.
    pub fn pivots(&self) -> (r: &Vec<(String, String)>)
        ensures
            pivot_texts(r@) == self@.pivots,
    {
        &self.pivots
    }

    /// The manifest of the captured RAM.
    pub fn manifest(&self) -> (r: Result<Vec<u8>, GuardianFault>)
        requires
            !(self@.ram is Unknown),
        ensures
            match self@.ram {
                Ram::Unknown => true,
                Ram::Portable(v) => r is Ok && r->Ok_0@ == portable_encoded(v),
                Ram::Fork(v) => r is Ok && r->Ok_0@ == fork_encoded(self@.pid, v),
                Ram::Guardian(g) => match r {
                    Ok(bytes) => g.socket.len() <= u32::MAX && g.regions.len() <= u32::MAX
                        && bytes@ == guardian_encoded(g),
                    Err(fault) => fault == (if g.socket.len() > u32::MAX {
                        GuardianFault::SocketTooLong
                    } else {
                        GuardianFault::TooManyRegions
                    }) && (g.socket.len() > u32::MAX || g.regions.len() > u32::MAX),
                },
            },
    {
        match &self.layout {
            Layout::Unknown => Ok(Vec::new()),
            Layout::Portable(v) => Ok(encode_portable_manifest(v.as_slice())),
            Layout::Fork(v) => Ok(encode_fork_manifest(self.pid, v.as_slice())),
            Layout::Guardian(d) => encode_guardian_manifest(d),
        }
    }

    fn go(&mut self, phase: Phase, task: Task) -> (r: Action)
        ensures
            doing(old(self)@, final(self)@, r, phase, task),
    {
        self.phase = phase;
        Action::Do(task)
    }

    fn end(&mut self, reply: Reply) -> (r: Action)
        ensures
            final(self)@ == old(self)@.at(Phase::Over),
            r == Action::Answer(reply),
    {
        self.phase = Phase::Over;
        Action::Answer(reply)
    }

    fn copied_arg(&self) -> (r: String)
        ensures
            r@ == self@.arg,
    {
        self.arg.clone()
    }

    fn copied_note(&self) -> (r: String)
        ensures
            r@ == self@.note,
    {
        self.note.clone()
    }

    fn no_dir(&mut self, error: String) -> (r: Action)
        ensures
            no_directory(old(self)@, final(self)@, r, error@),
    {
        let dir = self.copied_arg();
        self.end(Reply::CreateFailed { dir, error })
    }

    fn run_live(&mut self, event: Event) -> (r: Action)
        requires
            old(self)@.wf(),
            old(self)@.takes(event),
            is_live(old(self)@.phase),
        ensures
            final(self)@.wf(),
            live_follows(old(self)@, event, final(self)@, r),
    {
        match (self.phase, event) {
            (Phase::Pausing, Event::Done) => self.end(Reply::Paused),
            (Phase::Pausing, Event::Failed(t)) => self.end(Reply::Failed(t)),
            (Phase::Resuming, Event::Done) => self.end(Reply::Running),
            (Phase::Resuming, Event::Failed(t)) => self.end(Reply::Failed(t)),
            (Phase::Pager, Event::Text(t)) => self.end(Reply::PagerFailed(t)),
            (Phase::Pager, Event::NoText) => self.go(Phase::State, Task::RunState),
            (Phase::State, Event::Text(t)) => self.end(Reply::State(t)),
            (Phase::Balloon, Event::Pages { target, actual }) => self.end(
                Reply::Balloon { target_pages: target, actual_pages: actual },
            ),
            (Phase::Balloon, Event::Failed(t)) => self.end(Reply::NoDevice(t)),
            (Phase::Ballooning(mib), Event::Done) => self.end(Reply::BalloonTarget(mib)),
            (Phase::Ballooning(_), Event::Failed(t)) => self.end(Reply::NoDevice(t)),
            (Phase::Checkpointing, Event::Bytes(n)) => self.go(Phase::Stashing(n), Task::Stash),
            (Phase::Checkpointing, Event::Failed(t)) => self.end(Reply::CheckpointFailed(t)),
            (Phase::Stashing(n), Event::Done) => {
                let id = self.copied_arg();
                self.end(Reply::Checkpointed { id, bytes: n })
            },
            (Phase::Unstashing, Event::Missing) => {
                let id = self.copied_arg();
                self.end(Reply::NoCheckpoint(id))
            },
            (Phase::Unstashing, Event::Done) => self.go(Phase::Restoring, Task::RestoreStashed),
            (Phase::Restoring, Event::Done) => {
                let id = self.copied_arg();
                self.end(Reply::Restored(id))
            },
            (Phase::Restoring, Event::Failed(t)) => self.end(Reply::RestoreFailed(t)),
            _ => vstd::pervasive::unreached(),
        }
    }

    fn undo_save(&mut self, note: String) -> (r: Action)
        ensures
            save_undone(old(self)@, final(self)@, r, note@),
    {
        self.note = note;
        self.phase = Phase::SaveResume;
        Action::Do(Task::Resume)
    }

    fn complete_save(&mut self, paused: bool) -> (r: Action)
        requires
            old(self)@.wf(),
            old(self)@.ram is Portable,
        ensures
            saved(old(self)@, final(self)@, r, paused),
    {
        let (bytes, regions): (u64, u64) = match &self.layout {
            Layout::Portable(v) => (memory_image_len(v.as_slice()), v.len() as u64),
            _ => vstd::pervasive::unreached(),
        };
        self.end(Reply::Saved { bytes, regions, paused })
    }

    fn run_save(&mut self, event: Event) -> (r: Action)
        requires
            old(self)@.wf(),
            old(self)@.takes(event),
            is_save(old(self)@.phase),
        ensures
            final(self)@.wf(),
            save_follows(old(self)@, event, final(self)@, r),
    {
        match (self.phase, event) {
            (Phase::SaveDir, Event::Done) => self.go(Phase::SaveMemory, Task::CreateMemory),
            (Phase::SaveDir, Event::Failed(t)) => self.no_dir(t),
            (Phase::SaveMemory, Event::Done) => self.go(Phase::SaveCapture, Task::Capture),
            (Phase::SaveMemory, Event::Failed(t)) => {
                let note = join2("create memory image: ", t.as_str());
                self.undo_save(note)
            },
            (Phase::SaveCapture, Event::Regions(v)) => {
                self.layout = Layout::Portable(v);
                self.go(
                    Phase::SavePublish(PublishStep::SyncMemory),
                    Task::Publish(PublishStep::SyncMemory),
                )
            },
            (Phase::SaveCapture, Event::Failed(t)) => {
                let note = join2("capture VM: ", t.as_str());
                self.undo_save(note)
            },
            (Phase::SavePublish(step), Event::Done) => match after_publish(step) {
                Some(next) => self.go(Phase::SavePublish(next), Task::Publish(next)),
                None => self.complete_save(true),
            },
            (Phase::SavePublish(step), Event::Failed(t)) => {
                let note = step.failure(t.as_str());
                self.undo_save(note)
            },
            (Phase::SaveResume, Event::Done) => {
                self.cause = None;
                self.go(Phase::SaveRemove, Task::RemoveDir)
            },
            (Phase::SaveResume, Event::Failed(t)) => {
                self.cause = Some(t);
                self.go(Phase::SaveRemove, Task::RemoveDir)
            },
            (Phase::SaveRemove, Event::Done) => {
                let error = self.copied_note();
                let cause: Option<String> = match &self.cause {
                    Some(c) => Some(c.clone()),
                    None => None,
                };
                self.end(save_failed(error, cause))
            },
            _ => vstd::pervasive::unreached(),
        }
    }

    fn undo_finish(&mut self, note: String) -> (r: Action)
        ensures
            finish_undone(old(self)@, final(self)@, r, note@),
    {
        self.note = note;
        self.phase = Phase::FinishRemove;
        Action::Do(Task::RemoveDir)
    }

    fn run_deferred(&mut self, event: Event) -> (r: Action)
        requires
            old(self)@.wf(),
            old(self)@.takes(event),
            is_deferred(old(self)@.phase),
        ensures
            final(self)@.wf(),
            deferred_follows(old(self)@, event, final(self)@, r),
    {
        match (self.phase, event) {
            (Phase::PreparePending, Event::Pending(pending)) => if pending {
                self.end(Reply::SavePending)
            } else {
                self.go(Phase::PrepareDir, Task::CreateDir)
            },
            (Phase::PrepareDir, Event::Done) => self.go(
                Phase::PrepareCapture,
                Task::CaptureDeferred,
            ),
            (Phase::PrepareDir, Event::Failed(t)) => self.no_dir(t),
            (Phase::PrepareCapture, Event::Done) => self.go(Phase::PrepareKeep, Task::KeepPrepared),
            (Phase::PrepareCapture, Event::Failed(t)) => {
                self.note = t;
                self.go(Phase::PrepareRemove, Task::RemoveDir)
            },
            (Phase::PrepareRemove, Event::Done) => {
                let message = self.copied_note();
                self.end(capture_failed(message))
            },
            (Phase::PrepareKeep, Event::Done) => self.end(Reply::Prepared),
            (Phase::FinishWorker, Event::Done) => self.go(Phase::FinishTake, Task::TakePrepared),
            (Phase::FinishWorker, Event::Failed(t)) => self.end(Reply::StartSaveFailed(t)),
            (Phase::FinishTake, Event::Missing) => self.end(Reply::NoPreparedSave),
            (Phase::FinishTake, Event::Done) => self.go(Phase::FinishMemory, Task::CreateMemory),
            (Phase::FinishMemory, Event::Done) => self.go(
                Phase::FinishSerialize,
                Task::SerializeMemory,
            ),
            (Phase::FinishMemory, Event::Failed(t)) => {
                let note = join2("create memory image: ", t.as_str());
                self.undo_finish(note)
            },
            (Phase::FinishSerialize, Event::Regions(v)) => {
                self.layout = Layout::Portable(v);
                self.go(
                    Phase::FinishPublish(PublishStep::SyncMemory),
                    Task::Publish(PublishStep::SyncMemory),
                )
            },
            (Phase::FinishSerialize, Event::Failed(t)) => {
                let note = join2("serialize retained RAM generation: ", t.as_str());
                self.undo_finish(note)
            },
            (Phase::FinishPublish(step), Event::Done) => match after_publish(step) {
                Some(next) => self.go(Phase::FinishPublish(next), Task::Publish(next)),
                None => self.complete_save(false),
            },
            (Phase::FinishPublish(step), Event::Failed(t)) => {
                let note = step.failure(t.as_str());
                self.undo_finish(note)
            },
            (Phase::FinishRemove, Event::Done) => {
                let error = self.copied_note();
                self.end(Reply::Failed(error))
            },
            (Phase::CancelTake, Event::Missing) => self.end(Reply::NoSaveToCancel),
            (Phase::CancelTake, Event::Done) => self.go(Phase::CancelRemove, Task::RemoveDir),
            (Phase::CancelRemove, Event::Done) => self.end(Reply::Canceled),
            _ => vstd::pervasive::unreached(),
        }
    }

    fn undo_fork(&mut self, note: String) -> (r: Action)
        ensures
            fork_undone(old(self)@, final(self)@, r, note@),
    {
        self.note = note;
        self.phase = Phase::ForkRollback;
        Action::Do(Task::Rollback)
    }

    fn leave_behind(&mut self, name: &str, event: Event)
        ensures
            final(self)@ == (JobState {
                errors: with_leftover(old(self)@.errors, name@, event),
                ..old(self)@
            }),
    {
        let ghost before = self.errors@;
        if let Event::Failed(t) = event {
            let why = join2(": ", t.as_str());
            self.errors.push(join3("remove ", name, why.as_str()));
            assert(self@.errors =~= texts(before).push("remove "@ + name@ + (": "@ + t@)));
        }
    }

    fn lose_fork(&mut self, recovery: String) -> (r: Action)
        requires
            old(self)@.cause is Some,
        ensures
            fork_lost(old(self)@, final(self)@, r, recovery@),
    {
        let failure = self.copied_note();
        let error: String = match &self.cause {
            Some(c) => c.clone(),
            None => vstd::pervasive::unreached(),
        };
        self.end(Reply::ForkLost { failure, error, recovery })
    }

    fn end_fork(&mut self) -> (r: Action)
        ensures
            fork_restored(old(self)@, final(self)@, r),
    {
        let failure = self.copied_note();
        let mut errors: Vec<String> = Vec::new();
        let mut i: usize = 0;
        while i < self.errors.len()
            invariant
                i <= self.errors@.len(),
                texts(errors@) =~= texts(self.errors@).take(i as int),
            decreases self.errors@.len() - i,
        {
            let e = self.errors[i].clone();
            let ghost so_far = errors@;
            errors.push(e);
            assert(texts(errors@) =~= texts(so_far).push(e@));
            assert(texts(errors@) =~= texts(self.errors@).take(i + 1));
            i += 1;
        }
        assert(texts(errors@) =~= texts(self.errors@));
        proof {
            lemma_listed(errors@);
            assert(texts(errors@).len() == errors@.len());
        }
        self.end(fork_rolled_back(failure, errors))
    }

    fn run_fork(&mut self, event: Event) -> (r: Action)
        requires
            old(self)@.wf(),
            old(self)@.takes(event),
            is_fork(old(self)@.phase),
        ensures
            final(self)@.wf(),
            fork_follows(old(self)@, event, final(self)@, r),
    {
        match (self.phase, event) {
            (Phase::ForkDirs, Event::Done) => self.go(Phase::ForkCapture, Task::ForkCheckpoint),
            (Phase::ForkDirs, Event::Failed(t)) => self.no_dir(t),
            (Phase::ForkCapture, Event::Memfds(v)) => {
                self.layout = Layout::Fork(v);
                self.go(Phase::ForkCheckpoint, Task::WriteCheckpoint)
            },
            (Phase::ForkCapture, Event::NoMemfd) => self.end(Reply::NoMemfd { golden: true }),
            (Phase::ForkCapture, Event::Failed(t)) => self.end(
                Reply::ForkFailed { continuing: false, error: t },
            ),
            (Phase::ForkCheckpoint, Event::Done) => self.go(
                Phase::ForkManifest,
                Task::WriteManifest,
            ),
            (Phase::ForkCheckpoint, Event::Failed(t)) => {
                let note = join2("write checkpoint: ", t.as_str());
                self.undo_fork(note)
            },
            (Phase::ForkManifest, Event::Done) => {
                let regions: u64 = self.count_regions();
                let pid: i32 = self.pid;
                self.end(Reply::Forked { pid, regions })
            },
            (Phase::ForkManifest, Event::Failed(t)) => {
                let note = join2("write manifest: ", t.as_str());
                self.undo_fork(note)
            },
            (Phase::ForkRollback, Event::Done) => self.go(
                Phase::ForkRemoveCheckpoint,
                Task::RemoveCheckpoint,
            ),
            (Phase::ForkRollback, Event::Failed(t)) => {
                self.cause = Some(t);
                self.go(Phase::ForkPreserve, Task::PreserveCheckpoint)
            },
            (Phase::ForkPreserve, Event::Done) => {
                let how = join2("checkpoint preserved at ", self.arg.as_str());
                self.lose_fork(how)
            },
            (Phase::ForkPreserve, Event::Failed(t)) => {
                let why = join2(" failed: ", t.as_str());
                let how = join3("checkpoint preservation at ", self.arg.as_str(), why.as_str());
                self.lose_fork(how)
            },
            (Phase::ForkRemoveCheckpoint, e) => {
                self.leave_behind("checkpoint.bin", e);
                self.go(Phase::ForkRemoveManifest, Task::RemoveManifest)
            },
            (Phase::ForkRemoveManifest, e) => {
                self.leave_behind("manifest.bin", e);
                self.end_fork()
            },
            _ => vstd::pervasive::unreached(),
        }
    }

    fn count_regions(&self) -> (r: u64)
        ensures
            r == region_count(self@.ram),
    {
        match &self.layout {
            Layout::Unknown => 0,
            Layout::Portable(v) => v.len() as u64,
            Layout::Fork(v) => v.len() as u64,
            Layout::Guardian(d) => d.regions.len() as u64,
        }
    }

    fn resolve(&mut self, i: usize) -> (r: Action)
        requires
            old(self)@.wf(),
            i <= old(self)@.pivots.len(),
        ensures
            final(self)@.wf(),
            resolving(old(self)@, final(self)@, r, i as int),
    {
        if i < self.pivots.len() {
            return self.go(Phase::ContinueResolve(i), Task::ResolvePivot(i));
        }
        match self.fault {
            Some(fault) => self.end(Reply::BlockPivots(fault.message())),
            None => self.go(Phase::ContinueFork, Task::ForkContinue),
        }
    }

    fn generation(&mut self, guardian: bool, pid: i32) -> (r: Action)
        ensures
            forked(old(self)@, final(self)@, r, pid, guardian),
    {
        let regions: u64 = self.count_regions();
        let disks: u64 = self.pivots.len() as u64;
        self.end(Reply::ForkedGeneration { guardian, pid, regions, disks })
    }

    fn set_pivot(&mut self, i: usize, path: String)
        requires
            i < old(self)@.pivots.len(),
        ensures
            final(self)@ == (JobState {
                pivots: old(self)@.pivots.update(i as int, (old(self)@.pivots[i as int].0, path@)),
                ..old(self)@
            }),
    {
        let ghost before = self.pivots@;
        let id = self.pivots[i].0.clone();
        self.pivots.set(i, (id, path));
        assert(self@.pivots =~= pivot_texts(before).update(i as int, (before[i as int].0@, path@)));
    }

    fn run_continue(&mut self, event: Event) -> (r: Action)
        requires
            old(self)@.wf(),
            old(self)@.takes(event),
            is_continue(old(self)@.phase),
        ensures
            final(self)@.wf(),
            continue_follows(old(self)@, event, final(self)@, r),
    {
        match (self.phase, event) {
            (Phase::ContinueDirs, Event::Done) => self.go(Phase::ContinuePivots, Task::ReadPivots),
            (Phase::ContinueDirs, Event::Failed(t)) => self.no_dir(t),
            (Phase::ContinuePivots, Event::Failed(t)) => self.end(Reply::BlockPivots(t)),
            (Phase::ContinuePivots, Event::Text(t)) => {
                let (pivots, fault) = parse_block_pivots(t.as_str());
                self.pivots = pivots;
                self.fault = fault;
                self.resolve(0)
            },
            (Phase::ContinueResolve(_), Event::Failed(t)) => self.end(Reply::BlockPivots(t)),
            (Phase::ContinueResolve(i), Event::Text(t)) => {
                let n: usize = self.pivots.len();
                assert(i < n);
                self.set_pivot(i, t);
                self.resolve(i + 1)
            },
            (Phase::ContinueFork, Event::Memfds(v)) => {
                self.layout = Layout::Fork(v);
                self.go(Phase::ContinueCheckpoint, Task::CommitCheckpoint)
            },
            (Phase::ContinueFork, Event::Generation(d)) => {
                self.layout = Layout::Guardian(d);
                self.go(Phase::ContinueCheckpoint, Task::CommitCheckpoint)
            },
            (Phase::ContinueFork, Event::NoMemfd) => self.end(Reply::NoMemfd { golden: false }),
            (Phase::ContinueFork, Event::Failed(t)) => self.end(
                Reply::ForkFailed { continuing: true, error: t },
            ),
            (Phase::ContinueCheckpoint, Event::Done) => self.go(
                Phase::ContinueManifest,
                Task::WriteManifest,
            ),
            (Phase::ContinueCheckpoint, Event::Failed(t)) => self.end(
                Reply::SourceResumed { what: GenerationFile::Checkpoint, error: t },
            ),
            (Phase::ContinueManifest, Event::Done) => {
                let guarded: bool = self.guarded();
                if guarded {
                    self.go(Phase::ContinueDisarm, Task::Disarm)
                } else {
                    let pid: i32 = self.pid;
                    self.generation(false, pid)
                }
            },
            (Phase::ContinueManifest, Event::Failed(t)) => {
                self.note = t;
                self.go(Phase::ContinueUndo, Task::RemoveCheckpoint)
            },
            (Phase::ContinueUndo, _) => {
                let error = self.copied_note();
                let what = if self.guarded() {
                    GenerationFile::GuardianManifest
                } else {
                    GenerationFile::Manifest
                };
                self.end(Reply::SourceResumed { what, error })
            },
            (Phase::ContinueDisarm, Event::Done) => {
                let pid: i32 = match &self.layout {
                    Layout::Guardian(d) => d.guardian_pid,
                    _ => vstd::pervasive::unreached(),
                };
                self.generation(true, pid)
            },
            _ => vstd::pervasive::unreached(),
        }
    }

    fn guarded(&self) -> (r: bool)
        ensures
            r == (self@.ram is Guardian),
    {
        match &self.layout {
            Layout::Guardian(_) => true,
            _ => false,
        }
    }

    fn run_undo(&mut self, event: Event) -> (r: Action)
        requires
            old(self)@.wf(),
            old(self)@.takes(event),
            old(self)@.phase is UndoRead || old(self)@.phase is UndoDecode || old(
                self,
            )@.phase is UndoApply,
        ensures
            final(self)@.wf(),
            undo_follows(old(self)@, event, final(self)@, r),
    {
        match (self.phase, event) {
            (Phase::UndoRead, Event::Done) => self.go(Phase::UndoDecode, Task::DecodeCheckpoint),
            (Phase::UndoRead, Event::Unreadable { path, error }) => self.end(
                Reply::RollbackRead { path, error },
            ),
            (Phase::UndoDecode, Event::Done) => self.go(Phase::UndoApply, Task::Rollback),
            (Phase::UndoDecode, Event::Failed(t)) => self.end(Reply::RollbackDecode(t)),
            (Phase::UndoApply, Event::Done) => self.end(Reply::Running),
            (Phase::UndoApply, Event::Failed(t)) => self.end(Reply::RollbackFailed(t)),
            _ => vstd::pervasive::unreached(),
        }
    }

    /// Go on with what the last task came to.
    pub fn run(&mut self, event: Event) -> (r: Action)
        requires
            old(self)@.wf(),
            old(self)@.takes(event),
        ensures
            final(self)@.wf(),
            follows(old(self)@, event, final(self)@, r),
    {
        match self.phase {
            Phase::Pausing
            | Phase::Resuming
            | Phase::Pager
            | Phase::State
            | Phase::Balloon
            | Phase::Ballooning(_)
            | Phase::Checkpointing
            | Phase::Stashing(_)
            | Phase::Unstashing
            | Phase::Restoring => self.run_live(event),
            Phase::SaveDir
            | Phase::SaveMemory
            | Phase::SaveCapture
            | Phase::SavePublish(_)
            | Phase::SaveResume
            | Phase::SaveRemove => self.run_save(event),
            Phase::PreparePending
            | Phase::PrepareDir
            | Phase::PrepareCapture
            | Phase::PrepareRemove
            | Phase::PrepareKeep
            | Phase::FinishWorker
            | Phase::FinishTake
            | Phase::FinishMemory
            | Phase::FinishSerialize
            | Phase::FinishPublish(_)
            | Phase::FinishRemove
            | Phase::CancelTake
            | Phase::CancelRemove => self.run_deferred(event),
            Phase::ForkDirs
            | Phase::ForkCapture
            | Phase::ForkCheckpoint
            | Phase::ForkManifest
            | Phase::ForkRollback
            | Phase::ForkPreserve
            | Phase::ForkRemoveCheckpoint
            | Phase::ForkRemoveManifest => self.run_fork(event),
            Phase::ContinueDirs
            | Phase::ContinuePivots
            | Phase::ContinueResolve(_)
            | Phase::ContinueFork
            | Phase::ContinueCheckpoint
            | Phase::ContinueManifest
            | Phase::ContinueUndo
            | Phase::ContinueDisarm => self.run_continue(event),
            Phase::UndoRead | Phase::UndoDecode | Phase::UndoApply => self.run_undo(event),
            Phase::Over => vstd::pervasive::unreached(),
        }
    }
}

// ---------------------------------------------------------------------------
// Laws.
// ---------------------------------------------------------------------------

/// One step of a job.
pub open spec fn steps(s: JobState, e: Event, s2: JobState, a: Action) -> bool {
    s.wf() && s.takes(e) && follows(s, e, s2, a)
}

/// A job is over when, and only when, it has its reply.
pub proof fn a_reply_ends_the_job(s: JobState, e: Event, s2: JobState, a: Action)
    requires
        steps(s, e, s2, a),
    ensures
        a is Answer <==> s2.phase is Over,
{
}

/// The two actions are the same: the same task, or replies that read the same.
pub open spec fn same_action(a: Action, b: Action) -> bool {
    match (a, b) {
        (Action::Do(x), Action::Do(y)) => x == y,
        (Action::Answer(x), Action::Answer(y)) => x.line() == y.line(),
        _ => false,
    }
}

/// What a job does next depends on where it stands and on the event alone.
pub proof fn a_job_has_one_course(
    s: JobState,
    e: Event,
    s2: JobState,
    a: Action,
    t2: JobState,
    b: Action,
)
    requires
        steps(s, e, s2, a),
        steps(s, e, t2, b),
    ensures
        s2 == t2,
        same_action(a, b),
{
}

/// A save that fails after its directory was made resumes the microVM and
/// removes the directory before it answers.
pub proof fn a_failed_save_resumes_the_machine(
    s: JobState,
    e: Event,
    s1: JobState,
    a1: Action,
    e1: Event,
    s2: JobState,
    a2: Action,
    e2: Event,
    s3: JobState,
    a3: Action,
)
    requires
        s.phase is SaveMemory || s.phase is SaveCapture || s.phase is SavePublish,
        e is Failed,
        steps(s, e, s1, a1),
        steps(s1, e1, s2, a2),
        steps(s2, e2, s3, a3),
    ensures
        a1 == Action::Do(Task::Resume),
        a2 == Action::Do(Task::RemoveDir),
        a3 is Answer,
        !(a3->Answer_0 is Saved),
{
}

/// A save is reported only once its manifest, the last of its files, has been
/// published.
pub proof fn the_manifest_completes_a_save(s: JobState, e: Event, s2: JobState, a: Action)
    requires
        steps(s, e, s2, a),
        a is Answer,
        a->Answer_0 is Saved,
    ensures
        e is Done,
        s.phase == Phase::SavePublish(PublishStep::PublishManifest) || s.phase
            == Phase::FinishPublish(PublishStep::PublishManifest),
{
}

/// The files of a save are published in order, one step after another.
pub proof fn saves_are_published_in_order(s: JobState, e: Event, s2: JobState, a: Action, i: int)
    requires
        steps(s, e, s2, a),
        e is Done,
        0 <= i < publish_steps().len() - 1,
        s.phase == Phase::SavePublish(publish_steps()[i]) || s.phase == Phase::FinishPublish(
            publish_steps()[i],
        ),
    ensures
        a == Action::Do(Task::Publish(publish_steps()[i + 1])),
{
}

/// A fork that fails after the capture is rolled back; where that fails too, the
/// captured state is kept, and otherwise its files are removed.
pub proof fn a_failed_fork_is_rolled_back(
    s: JobState,
    e: Event,
    s1: JobState,
    a1: Action,
    e1: Event,
    s2: JobState,
    a2: Action,
    e2: Event,
    s3: JobState,
    a3: Action,
)
    requires
        s.phase is ForkCheckpoint || s.phase is ForkManifest,
        e is Failed,
        steps(s, e, s1, a1),
        steps(s1, e1, s2, a2),
        steps(s2, e2, s3, a3),
    ensures
        a1 == Action::Do(Task::Rollback),
        e1 is Failed ==> a2 == Action::Do(Task::PreserveCheckpoint) && a3 is Answer && (
        a3->Answer_0 is ForkLost),
        e1 is Done ==> a2 == Action::Do(Task::RemoveCheckpoint) && a3 == Action::Do(
            Task::RemoveManifest,
        ),
{
}

} // verus!
