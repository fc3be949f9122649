//! The courses that jobs take: what is done for each operation, in which order,
//! and what is answered, where all goes well and where a step fails.

use vstd::prelude::*;

use crate::control::{Operation, Reply};
use crate::jobs::{begins, follows, Action, Event, JobState, Task};
use crate::snapshot::PublishStep;

verus! {

/// One step of a job.
pub open spec fn step(s: Seq<JobState>, a: Seq<Action>, e: Seq<Event>, i: int) -> bool {
    follows(s[i], e[i], s[i + 1], a[i + 1])
}

/// A job that was begun and then saw these events.
pub open spec fn runs(
    op: Operation,
    pager: bool,
    pid: i32,
    s: Seq<JobState>,
    a: Seq<Action>,
    e: Seq<Event>,
) -> bool {
    &&& s.len() == e.len() + 1
    &&& a.len() == e.len() + 1
    &&& begins(op, pager, pid, s[0], a[0])
    &&& forall|i: int| 0 <= i < e.len() ==> #[trigger] step(s, a, e, i)
}

pub open spec fn does(a: Action, t: Task) -> bool {
    a == Action::Do(t)
}

/// Pausing and resuming: done, and answered; what went wrong is told.
pub proof fn pausing_and_resuming(
    op: Operation,
    pid: i32,
    s: Seq<JobState>,
    a: Seq<Action>,
    e: Seq<Event>,
)
    requires
        runs(op, false, pid, s, a, e),
        e.len() == 1,
    ensures
        op is Pause ==> does(a[0], Task::Pause),
        op is Resume ==> does(a[0], Task::Resume),
        op is Pause && e[0] is Done ==> a[1] == Action::Answer(Reply::Paused),
        op is Resume && e[0] is Done ==> a[1] == Action::Answer(Reply::Running),
        op is Pause || op is Resume ==> (e[0] matches Event::Failed(t) ==> (a[1] matches
            Action::Answer(Reply::Failed(m)) && m@ == t@)),
        op is Status ==> does(a[0], Task::RunState) && (e[0] matches Event::Text(t) ==> (a[1]
            matches Action::Answer(Reply::State(m)) && m@ == t@)),
        op is BalloonQuery ==> does(a[0], Task::BalloonPages) && (e[0] matches Event::Pages {
            target,
            actual,
        } ==> a[1] == Action::Answer(
            Reply::Balloon { target_pages: target, actual_pages: actual },
        )),
        op matches Operation::BalloonSet(mib) ==> does(a[0], Task::BalloonSet(mib)) && (e[0] is Done
            ==> a[1] == Action::Answer(Reply::BalloonTarget(mib))),
{
    assert(step(s, a, e, 0));
}

/// With a pager, its failure is what the status tells.
pub proof fn the_status_tells_of_the_pager(
    pid: i32,
    s: Seq<JobState>,
    a: Seq<Action>,
    e: Seq<Event>,
)
    requires
        runs(Operation::Status, true, pid, s, a, e),
        e.len() >= 1,
    ensures
        does(a[0], Task::PagerFailure),
        e[0] matches Event::Text(t) ==> (a[1] matches Action::Answer(Reply::PagerFailed(m)) && m@
            == t@),
        e[0] is NoText ==> does(a[1], Task::RunState),
{
    assert(step(s, a, e, 0));
}

/// A checkpoint is captured and then kept under its name; restoring takes it
/// from there.
pub proof fn checkpoints_are_kept_and_taken(
    op: Operation,
    pid: i32,
    s: Seq<JobState>,
    a: Seq<Action>,
    e: Seq<Event>,
)
    requires
        runs(op, false, pid, s, a, e),
        e.len() == 2,
    ensures
        op matches Operation::Checkpoint(id) ==> {
            &&& does(a[0], Task::Checkpoint)
            &&& e[0] matches Event::Bytes(n) ==> does(a[1], Task::Stash) && (e[1] is Done ==> (a[2]
                matches Action::Answer(Reply::Checkpointed { id: told, bytes }) && told@ == id@
                && bytes == n))
        },
        op matches Operation::Restore(id) ==> {
            &&& does(a[0], Task::Unstash)
            &&& e[0] is Missing ==> (a[1] matches Action::Answer(Reply::NoCheckpoint(told))
                && told@ == id@)
            &&& e[0] is Done ==> does(a[1], Task::RestoreStashed)
            &&& e[0] is Done && e[1] is Done ==> (a[2] matches Action::Answer(Reply::Restored(told))
                && told@ == id@)
        },
{
    assert(step(s, a, e, 0));
    assert(step(s, a, e, 1));
}

/// A save makes its directory and the image of memory, captures the machine,
/// publishes what it wrote, from memory to the manifest, and leaves the machine
/// paused.
pub proof fn a_save_takes_its_course(
    op: Operation,
    pid: i32,
    s: Seq<JobState>,
    a: Seq<Action>,
    e: Seq<Event>,
)
    requires
        runs(op, false, pid, s, a, e),
        op is Save,
        e.len() == 13,
        e[0] is Done,
        e[1] is Done,
        e[2] is Regions,
        forall|i: int| 3 <= i < 13 ==> #[trigger] e[i] is Done,
    ensures
        does(a[0], Task::CreateDir),
        does(a[1], Task::CreateMemory),
        does(a[2], Task::Capture),
        does(a[3], Task::Publish(PublishStep::SyncMemory)),
        does(a[4], Task::Publish(PublishStep::CreateCheckpoint)),
        does(a[5], Task::Publish(PublishStep::WriteCheckpoint)),
        does(a[6], Task::Publish(PublishStep::SyncCheckpoint)),
        does(a[7], Task::Publish(PublishStep::CreateManifest)),
        does(a[8], Task::Publish(PublishStep::WriteManifest)),
        does(a[9], Task::Publish(PublishStep::SyncManifest)),
        does(a[10], Task::Publish(PublishStep::PublishMemory)),
        does(a[11], Task::Publish(PublishStep::PublishCheckpoint)),
        does(a[12], Task::Publish(PublishStep::PublishManifest)),
        e[2] matches Event::Regions(v) && (a[13] matches Action::Answer(
            Reply::Saved { bytes, regions, paused },
        ) && regions == v@.len() && paused && bytes == crate::manifest::total_len(v@)),
{
    assert(step(s, a, e, 0));
    assert(step(s, a, e, 1));
    assert(step(s, a, e, 2));
    assert(step(s, a, e, 3));
    assert(step(s, a, e, 4));
    assert(step(s, a, e, 5));
    assert(step(s, a, e, 6));
    assert(step(s, a, e, 7));
    assert(step(s, a, e, 8));
    assert(step(s, a, e, 9));
    assert(step(s, a, e, 10));
    assert(step(s, a, e, 11));
    assert(step(s, a, e, 12));
}

/// A save is prepared only where none is pending, keeps what it captured for
/// later, and gives its directory up where it could not capture.
pub proof fn a_prepared_save_is_kept(
    op: Operation,
    pid: i32,
    s: Seq<JobState>,
    a: Seq<Action>,
    e: Seq<Event>,
)
    requires
        runs(op, false, pid, s, a, e),
        op is PrepareSave,
        e.len() == 4,
    ensures
        does(a[0], Task::PendingSaves),
        e[0] == Event::Pending(true) ==> a[1] == Action::Answer(Reply::SavePending),
        e[0] == Event::Pending(false) ==> {
            &&& does(a[1], Task::CreateDir)
            &&& e[1] is Done ==> {
                &&& does(a[2], Task::CaptureDeferred)
                &&& e[2] is Done ==> does(a[3], Task::KeepPrepared) && (e[3] is Done ==> a[4]
                    == Action::Answer(Reply::Prepared))
                &&& e[2] is Failed ==> does(a[3], Task::RemoveDir)
            }
        },
{
    assert(step(s, a, e, 0));
    assert(step(s, a, e, 1));
    assert(step(s, a, e, 2));
    assert(step(s, a, e, 3));
}

/// A prepared save is finished in a worker, from what was kept, or cancelled
/// and its directory removed.
pub proof fn a_prepared_save_is_taken(
    op: Operation,
    pid: i32,
    s: Seq<JobState>,
    a: Seq<Action>,
    e: Seq<Event>,
)
    requires
        runs(op, false, pid, s, a, e),
        e.len() == 4,
    ensures
        op is FinishSave ==> {
            &&& does(a[0], Task::StartWorker)
            &&& e[0] is Done ==> {
                &&& does(a[1], Task::TakePrepared)
                &&& e[1] is Missing ==> a[2] == Action::Answer(Reply::NoPreparedSave)
                &&& e[1] is Done ==> does(a[2], Task::CreateMemory) && (e[2] is Done ==> does(
                    a[3],
                    Task::SerializeMemory,
                ) && (e[3] is Regions ==> does(a[4], Task::Publish(PublishStep::SyncMemory))))
            }
        },
        op is CancelSave ==> {
            &&& does(a[0], Task::TakePrepared)
            &&& e[0] is Missing ==> a[1] == Action::Answer(Reply::NoSaveToCancel)
            &&& e[0] is Done ==> does(a[1], Task::RemoveDir) && (e[1] is Done ==> a[2]
                == Action::Answer(Reply::Canceled))
        },
{
    assert(step(s, a, e, 0));
    assert(step(s, a, e, 1));
    assert(step(s, a, e, 2));
    assert(step(s, a, e, 3));
}

/// A fork freezes the machine and writes the checkpoint and then the manifest;
/// a machine that the fork failed is rolled back.
pub proof fn a_fork_takes_its_course(
    op: Operation,
    pid: i32,
    s: Seq<JobState>,
    a: Seq<Action>,
    e: Seq<Event>,
)
    requires
        runs(op, false, pid, s, a, e),
        op is Fork,
        e.len() == 4,
        e[0] is Done,
    ensures
        does(a[0], Task::CreateDirs),
        does(a[1], Task::ForkCheckpoint),
        e[1] is NoMemfd ==> a[2] == Action::Answer(Reply::NoMemfd { golden: true }),
        e[1] matches Event::Memfds(v) ==> {
            &&& does(a[2], Task::WriteCheckpoint)
            &&& e[2] is Failed ==> does(a[3], Task::Rollback)
            &&& e[2] is Done ==> {
                &&& does(a[3], Task::WriteManifest)
                &&& e[3] is Failed ==> does(a[4], Task::Rollback)
                &&& e[3] is Done ==> (a[4] matches Action::Answer(
                    Reply::Forked { pid: by, regions },
                ) && by == pid && regions == v@.len())
            }
        },
{
    assert(step(s, a, e, 0));
    assert(step(s, a, e, 1));
    assert(step(s, a, e, 2));
    assert(step(s, a, e, 3));
}

/// A fork of a machine that goes on reads and resolves the disks to be pivoted,
/// captures the generation, and writes the checkpoint and then the manifest; a
/// guardian is let go last.
pub proof fn a_running_fork_takes_its_course(
    op: Operation,
    pid: i32,
    s: Seq<JobState>,
    a: Seq<Action>,
    e: Seq<Event>,
)
    requires
        runs(op, false, pid, s, a, e),
        op is ForkContinue,
        e.len() == 7,
        e[0] is Done,
        e[1] matches Event::Text(t) && crate::snapshot::pivots_from(t@, 1, Seq::empty()).0.len() == 1
            && crate::snapshot::pivots_from(t@, 1, Seq::empty()).1 is None,
        e[2] is Text,
    ensures
        does(a[0], Task::CreateDirs),
        does(a[1], Task::ReadPivots),
        does(a[2], Task::ResolvePivot(0)),
        does(a[3], Task::ForkContinue),
        e[3] is Memfds || e[3] is Generation ==> does(a[4], Task::CommitCheckpoint),
        (e[3] is Memfds || e[3] is Generation) && e[4] is Done ==> does(a[5], Task::WriteManifest),
        e[3] is NoMemfd ==> a[4] == Action::Answer(Reply::NoMemfd { golden: false }),
        e[3] matches Event::Memfds(v) ==> (e[4] is Done && e[5] is Done ==> (a[6] matches
            Action::Answer(Reply::ForkedGeneration { guardian, pid: by, regions, disks })
            && !guardian && by == pid && regions == v@.len() && disks == 1)),
        e[3] matches Event::Generation(d) ==> (e[4] is Done && e[5] is Done ==> does(
            a[6],
            Task::Disarm,
        ) && (e[6] is Done ==> (a[7] matches Action::Answer(
            Reply::ForkedGeneration { guardian, pid: by, regions, disks },
        ) && guardian && by == d@.pid && regions == d@.regions.len() && disks == 1))),
{
    assert(step(s, a, e, 0));
    assert(step(s, a, e, 1));
    assert(step(s, a, e, 2));
    assert(step(s, a, e, 3));
    assert(step(s, a, e, 4));
    assert(step(s, a, e, 5));
    assert(step(s, a, e, 6));
}

/// Undoing a fork reads its checkpoint, decodes it and applies it.
pub proof fn undoing_a_fork_takes_its_course(
    op: Operation,
    pid: i32,
    s: Seq<JobState>,
    a: Seq<Action>,
    e: Seq<Event>,
)
    requires
        runs(op, false, pid, s, a, e),
        op is RollbackFork,
        e.len() == 3,
        e[0] is Done,
        e[1] is Done,
        e[2] is Done,
    ensures
        does(a[0], Task::ReadCheckpoint),
        does(a[1], Task::DecodeCheckpoint),
        does(a[2], Task::Rollback),
        a[3] == Action::Answer(Reply::Running),
{
    assert(step(s, a, e, 0));
    assert(step(s, a, e, 1));
    assert(step(s, a, e, 2));
}

} // verus!
