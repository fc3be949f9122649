use krun::config::Os;
use krun::control::Operation;
use krun::jobs::{Action, Event, Job, Task};
use krun::manifest::{
    encode_fork_manifest, encode_guardian_manifest, encode_portable_manifest,
    GuardianGenerationDesc, MemfdRegionDesc, MemoryRegionDesc, RestorePlan,
};
use krun::restore::RestoreStep;
use krun::snapshot::{publish_portable_save, PublishStep};

fn begin(op: Operation) -> (Job, Task) {
    match Job::start(op, true, 77) {
        (job, Action::Do(task)) => (job, task),
        (_, Action::Answer(reply)) => panic!("{:?}", reply),
    }
}

fn task(job: &mut Job, event: Event) -> Task {
    match job.run(event) {
        Action::Do(task) => task,
        Action::Answer(reply) => panic!("{:?}", reply),
    }
}

fn answer(job: &mut Job, event: Event) -> String {
    match job.run(event) {
        Action::Answer(reply) => reply.text(),
        Action::Do(task) => panic!("{:?}", task),
    }
}

fn failed(text: &str) -> Event {
    Event::Failed(text.to_string())
}

fn text(s: &str) -> Event {
    Event::Text(s.to_string())
}

fn dir() -> String {
    "/snap".to_string()
}

fn regions() -> Vec<MemoryRegionDesc> {
    vec![
        MemoryRegionDesc { gpa: 0, len: 0x1000 },
        MemoryRegionDesc {
            gpa: 0x10_0000,
            len: 0x2000,
        },
    ]
}

fn memfds() -> Vec<MemfdRegionDesc> {
    vec![MemfdRegionDesc {
        gpa: 0,
        len: 0x1000,
        fd: 4,
        offset: 0,
        path: String::new(),
    }]
}

fn guardian() -> GuardianGenerationDesc {
    GuardianGenerationDesc {
        guardian_pid: 9,
        guardian_start_time: 1,
        socket_path: b"/g".to_vec(),
        token: [1; 32],
        regions: regions(),
    }
}

// A save whose RAM is captured and whose first step is to be done.
fn capturing_save() -> Job {
    let (mut job, first) = begin(Operation::Save(dir()));
    assert_eq!(first, Task::CreateDir);
    assert_eq!(task(&mut job, Event::Done), Task::CreateMemory);
    assert_eq!(task(&mut job, Event::Done), Task::Capture);
    job
}

#[test]
fn pausing_and_resuming_answer_at_once() {
    let (mut job, first) = begin(Operation::Pause);
    assert_eq!(first, Task::Pause);
    assert_eq!(answer(&mut job, Event::Done), "OK paused\n");
    let (mut job, _) = begin(Operation::Pause);
    assert_eq!(answer(&mut job, failed("stuck")), "ERR EIO stuck\n");
    let (mut job, first) = begin(Operation::Resume);
    assert_eq!(first, Task::Resume);
    assert_eq!(answer(&mut job, Event::Done), "OK running\n");
    let (mut job, _) = begin(Operation::Resume);
    assert_eq!(answer(&mut job, failed("stuck")), "ERR EIO stuck\n");
}

#[test]
fn the_status_asks_the_pager_first() {
    let (mut job, first) = begin(Operation::Status);
    assert_eq!(first, Task::PagerFailure);
    assert_eq!(answer(&mut job, text("gone")), "ERR EIO RAM pager failed: gone\n");
    let (mut job, _) = begin(Operation::Status);
    assert_eq!(task(&mut job, Event::NoText), Task::RunState);
    assert_eq!(answer(&mut job, text("Running")), "OK Running\n");
    match Job::start(Operation::Status, false, 1) {
        (mut job, Action::Do(Task::RunState)) => {
            assert_eq!(answer(&mut job, text("Paused")), "OK Paused\n")
        }
        other => panic!("{:?}", other),
    }
}

#[test]
fn balloons_are_asked_and_set() {
    let (mut job, first) = begin(Operation::BalloonQuery);
    assert_eq!(first, Task::BalloonPages);
    assert_eq!(
        answer(
            &mut job,
            Event::Pages {
                target: 1024,
                actual: 512
            }
        ),
        "OK target=4 actual=2\n"
    );
    let (mut job, _) = begin(Operation::BalloonQuery);
    assert_eq!(answer(&mut job, failed("none")), "ERR ENODEV none\n");
    let (mut job, first) = begin(Operation::BalloonSet(64));
    assert_eq!(first, Task::BalloonSet(64));
    assert_eq!(answer(&mut job, Event::Done), "OK balloon target 64 MiB\n");
    let (mut job, _) = begin(Operation::BalloonSet(64));
    assert_eq!(answer(&mut job, failed("none")), "ERR ENODEV none\n");
}

#[test]
fn checkpoints_are_kept_and_taken() {
    let (mut job, first) = begin(Operation::Checkpoint("a".to_string()));
    assert_eq!(first, Task::Checkpoint);
    assert_eq!(job.argument(), "a");
    assert_eq!(task(&mut job, Event::Bytes(4096)), Task::Stash);
    assert_eq!(
        answer(&mut job, Event::Done),
        "OK checkpointed a (4096 bytes, paused)\n"
    );
    let (mut job, _) = begin(Operation::Checkpoint("a".to_string()));
    assert_eq!(answer(&mut job, failed("e")), "ERR EIO checkpoint failed: e\n");

    let (mut job, first) = begin(Operation::Restore("a".to_string()));
    assert_eq!(first, Task::Unstash);
    assert_eq!(answer(&mut job, Event::Missing), "ERR ENOENT no checkpoint 'a'\n");
    let (mut job, _) = begin(Operation::Restore("a".to_string()));
    assert_eq!(task(&mut job, Event::Done), Task::RestoreStashed);
    assert_eq!(answer(&mut job, Event::Done), "OK restored a (paused)\n");
    let (mut job, _) = begin(Operation::Restore("a".to_string()));
    assert_eq!(task(&mut job, Event::Done), Task::RestoreStashed);
    assert_eq!(answer(&mut job, failed("e")), "ERR EIO restore failed: e\n");
}

#[test]
fn a_save_is_published_step_by_step() {
    let mut job = capturing_save();
    let mut next = task(&mut job, Event::Regions(regions()));
    assert_eq!(job.manifest().unwrap(), encode_portable_manifest(&regions()));
    let steps = publish_portable_save();
    for (i, step) in steps.iter().enumerate() {
        assert_eq!(next, Task::Publish(*step));
        if i + 1 < steps.len() {
            next = task(&mut job, Event::Done);
        }
    }
    assert_eq!(
        answer(&mut job, Event::Done),
        "OK saved (12288 bytes, 2 regions, paused)\n"
    );
}

#[test]
fn a_failed_save_resumes_and_removes() {
    let (mut job, _) = begin(Operation::Save(dir()));
    assert_eq!(answer(&mut job, failed("exists")), "ERR EIO create /snap: exists\n");

    let mut job = capturing_save();
    assert_eq!(task(&mut job, failed("no RAM")), Task::Resume);
    assert_eq!(task(&mut job, Event::Done), Task::RemoveDir);
    assert_eq!(answer(&mut job, Event::Done), "ERR EIO capture VM: no RAM\n");

    let mut job = capturing_save();
    assert_eq!(
        task(&mut job, Event::Regions(regions())),
        Task::Publish(PublishStep::SyncMemory)
    );
    assert_eq!(task(&mut job, failed("disk")), Task::Resume);
    assert_eq!(task(&mut job, failed("stuck")), Task::RemoveDir);
    assert_eq!(
        answer(&mut job, Event::Done),
        "ERR EIO sync memory image: disk; resume after failed save: stuck\n"
    );

    let (mut job, _) = begin(Operation::Save(dir()));
    assert_eq!(task(&mut job, Event::Done), Task::CreateMemory);
    assert_eq!(task(&mut job, failed("full")), Task::Resume);
    assert_eq!(task(&mut job, Event::Done), Task::RemoveDir);
    assert_eq!(answer(&mut job, Event::Done), "ERR EIO create memory image: full\n");
}

#[test]
fn one_save_is_prepared_at_a_time() {
    let (mut job, first) = begin(Operation::PrepareSave(dir()));
    assert_eq!(first, Task::PendingSaves);
    assert_eq!(
        answer(&mut job, Event::Pending(true)),
        "ERR EBUSY another durable save is still pending\n"
    );
    let prepare = || {
        let (mut job, _) = begin(Operation::PrepareSave(dir()));
        assert_eq!(task(&mut job, Event::Pending(false)), Task::CreateDir);
        job
    };
    assert_eq!(
        answer(&mut prepare(), failed("exists")),
        "ERR EIO create /snap: exists\n"
    );
    let mut job = prepare();
    assert_eq!(task(&mut job, Event::Done), Task::CaptureDeferred);
    assert_eq!(task(&mut job, Event::Done), Task::KeepPrepared);
    assert_eq!(answer(&mut job, Event::Done), "OK prepared (paused)\n");
    let mut job = prepare();
    assert_eq!(task(&mut job, Event::Done), Task::CaptureDeferred);
    assert_eq!(task(&mut job, failed("deferred durable save requires X")), Task::RemoveDir);
    assert_eq!(
        answer(&mut job, Event::Done),
        "ERR ENOTSUP deferred durable save requires X\n"
    );
    let mut job = prepare();
    assert_eq!(task(&mut job, Event::Done), Task::CaptureDeferred);
    assert_eq!(task(&mut job, failed("e")), Task::RemoveDir);
    assert_eq!(answer(&mut job, Event::Done), "ERR EIO capture VM: e\n");
}

#[test]
fn a_prepared_save_is_finished_or_canceled() {
    let finish = || {
        let (mut job, first) = begin(Operation::FinishSave(dir()));
        assert_eq!(first, Task::StartWorker);
        assert_eq!(task(&mut job, Event::Done), Task::TakePrepared);
        job
    };
    let (mut job, _) = begin(Operation::FinishSave(dir()));
    assert_eq!(
        answer(&mut job, failed("no threads")),
        "ERR EAGAIN start durable save: no threads\n"
    );
    assert_eq!(
        answer(&mut finish(), Event::Missing),
        "ERR ENOENT no prepared durable save\n"
    );
    let mut job = finish();
    assert_eq!(task(&mut job, Event::Done), Task::CreateMemory);
    assert_eq!(task(&mut job, Event::Done), Task::SerializeMemory);
    let mut last = task(&mut job, Event::Regions(regions()));
    while last != Task::Publish(PublishStep::PublishManifest) {
        last = task(&mut job, Event::Done);
    }
    assert_eq!(answer(&mut job, Event::Done), "OK saved (12288 bytes, 2 regions)\n");
    let mut job = finish();
    assert_eq!(task(&mut job, Event::Done), Task::CreateMemory);
    assert_eq!(task(&mut job, Event::Done), Task::SerializeMemory);
    assert_eq!(task(&mut job, failed("e")), Task::RemoveDir);
    assert_eq!(
        answer(&mut job, Event::Done),
        "ERR EIO serialize retained RAM generation: e\n"
    );

    let (mut job, first) = begin(Operation::CancelSave(dir()));
    assert_eq!(first, Task::TakePrepared);
    assert_eq!(
        answer(&mut job, Event::Missing),
        "ERR ENOENT save is finishing or does not exist\n"
    );
    let (mut job, _) = begin(Operation::CancelSave(dir()));
    assert_eq!(task(&mut job, Event::Done), Task::RemoveDir);
    assert_eq!(answer(&mut job, Event::Done), "OK canceled\n");
}

#[test]
fn a_fork_freezes_the_base() {
    let (mut job, first) = begin(Operation::Fork(dir()));
    assert_eq!(first, Task::CreateDirs);
    assert_eq!(task(&mut job, Event::Done), Task::ForkCheckpoint);
    assert_eq!(task(&mut job, Event::Memfds(memfds())), Task::WriteCheckpoint);
    assert_eq!(task(&mut job, Event::Done), Task::WriteManifest);
    assert_eq!(job.manifest().unwrap(), encode_fork_manifest(77, &memfds()));
    assert_eq!(
        answer(&mut job, Event::Done),
        "OK forked (frozen base, pid 77, 1 regions)\n"
    );
    let (mut job, _) = begin(Operation::Fork(dir()));
    assert_eq!(task(&mut job, Event::Done), Task::ForkCheckpoint);
    assert_eq!(
        answer(&mut job, Event::NoMemfd),
        "ERR EINVAL no memfd-backed RAM (start the golden VM with SMOLVM_FORKABLE=1)\n"
    );
}

#[test]
fn a_failed_fork_is_undone() {
    let failing = || {
        let (mut job, _) = begin(Operation::Fork(dir()));
        assert_eq!(task(&mut job, Event::Done), Task::ForkCheckpoint);
        assert_eq!(task(&mut job, Event::Memfds(memfds())), Task::WriteCheckpoint);
        assert_eq!(task(&mut job, failed("full")), Task::Rollback);
        job
    };
    let mut job = failing();
    assert_eq!(task(&mut job, failed("stuck")), Task::PreserveCheckpoint);
    assert_eq!(
        answer(&mut job, Event::Done),
        "ERR EIO write checkpoint: full; rollback failed: stuck; checkpoint preserved at /snap\n"
    );
    let mut job = failing();
    assert_eq!(task(&mut job, failed("stuck")), Task::PreserveCheckpoint);
    assert_eq!(
        answer(&mut job, failed("full")),
        "ERR EIO write checkpoint: full; rollback failed: stuck; checkpoint preservation at /snap failed: full\n"
    );
    let mut job = failing();
    assert_eq!(task(&mut job, Event::Done), Task::RemoveCheckpoint);
    assert_eq!(task(&mut job, Event::Missing), Task::RemoveManifest);
    assert_eq!(answer(&mut job, Event::Done), "ERR EIO write checkpoint: full\n");
    let mut job = failing();
    assert_eq!(task(&mut job, Event::Done), Task::RemoveCheckpoint);
    assert_eq!(task(&mut job, failed("x")), Task::RemoveManifest);
    assert_eq!(
        answer(&mut job, failed("y")),
        "ERR EIO write checkpoint: full; rollback succeeded but cleanup failed: remove checkpoint.bin: x, remove manifest.bin: y\n"
    );
}

#[test]
fn a_generation_resolves_its_pivots() {
    let op = |paged| Operation::ForkContinue { dir: dir(), paged };
    let (mut job, first) = begin(op(true));
    assert_eq!(first, Task::CreateDirs);
    assert!(job.paged());
    assert_eq!(task(&mut job, Event::Done), Task::ReadPivots);
    assert_eq!(task(&mut job, text("vda\ta.img\nvdb\tb.img\n")), Task::ResolvePivot(0));
    assert_eq!(job.pivots()[1].1, "b.img");
    assert_eq!(task(&mut job, text("/d/a.img")), Task::ResolvePivot(1));
    assert_eq!(task(&mut job, text("/d/b.img")), Task::ForkContinue);
    assert_eq!(
        job.pivots(),
        &vec![
            ("vda".to_string(), "/d/a.img".to_string()),
            ("vdb".to_string(), "/d/b.img".to_string())
        ]
    );
    assert_eq!(task(&mut job, Event::Generation(guardian())), Task::CommitCheckpoint);
    assert_eq!(task(&mut job, Event::Done), Task::WriteManifest);
    assert_eq!(
        job.manifest().unwrap(),
        encode_guardian_manifest(&guardian()).unwrap()
    );
    assert_eq!(task(&mut job, Event::Done), Task::Disarm);
    assert_eq!(
        answer(&mut job, Event::Done),
        "OK forked generation (running source, guardian pid 9, 2 regions, 2 disks)\n"
    );

    // A path is resolved before the next line is looked at.
    let (mut job, _) = begin(op(false));
    assert_eq!(task(&mut job, Event::Done), Task::ReadPivots);
    assert_eq!(task(&mut job, text("vda\ta.img\nvdb\n")), Task::ResolvePivot(0));
    assert_eq!(
        answer(&mut job, failed("no such file")),
        "ERR EINVAL read block pivots: no such file\n"
    );
    let (mut job, _) = begin(op(false));
    assert_eq!(task(&mut job, Event::Done), Task::ReadPivots);
    assert_eq!(task(&mut job, text("vda\ta.img\nvdb\n")), Task::ResolvePivot(0));
    assert_eq!(
        answer(&mut job, text("/d/a.img")),
        "ERR EINVAL read block pivots: block pivot line 2 needs id<TAB>path\n"
    );
}

#[test]
fn an_incomplete_generation_says_that_the_source_goes_on() {
    let forked = || {
        let (mut job, _) = begin(Operation::ForkContinue {
            dir: dir(),
            paged: false,
        });
        assert_eq!(task(&mut job, Event::Done), Task::ReadPivots);
        assert_eq!(task(&mut job, text("vda\ta.img")), Task::ResolvePivot(0));
        assert_eq!(task(&mut job, text("/a.img")), Task::ForkContinue);
        job
    };
    let mut job = forked();
    assert_eq!(
        answer(&mut job, Event::NoMemfd),
        "ERR EINVAL no memfd-backed RAM (start the VM with SMOLVM_FORKABLE=1)\n"
    );
    let mut job = forked();
    assert_eq!(
        answer(&mut job, failed("e")),
        "ERR EIO fork-continue checkpoint failed: e\n"
    );
    let mut job = forked();
    assert_eq!(task(&mut job, Event::Memfds(memfds())), Task::CommitCheckpoint);
    assert_eq!(
        answer(&mut job, failed("e")),
        "ERR EIO write checkpoint: e; source already resumed\n"
    );
    let mut job = forked();
    assert_eq!(task(&mut job, Event::Memfds(memfds())), Task::CommitCheckpoint);
    assert_eq!(task(&mut job, Event::Done), Task::WriteManifest);
    assert_eq!(task(&mut job, failed("e")), Task::RemoveCheckpoint);
    assert_eq!(
        answer(&mut job, Event::Done),
        "ERR EIO write manifest: e; source already resumed\n"
    );
    let mut job = forked();
    assert_eq!(task(&mut job, Event::Memfds(memfds())), Task::CommitCheckpoint);
    assert_eq!(task(&mut job, Event::Done), Task::WriteManifest);
    assert_eq!(
        answer(&mut job, Event::Done),
        "OK forked generation (running source, memfd pid 77, 1 regions, 1 disks)\n"
    );
}

#[test]
fn a_fork_is_rolled_back_from_its_directory() {
    let (mut job, first) = begin(Operation::RollbackFork(dir()));
    assert_eq!(first, Task::ReadCheckpoint);
    assert_eq!(
        answer(
            &mut job,
            Event::Unreadable {
                path: "/snap/checkpoint.bin".to_string(),
                error: "gone".to_string()
            }
        ),
        "ERR EIO read rollback checkpoint /snap/checkpoint.bin: gone\n"
    );
    let decoding = || {
        let (mut job, _) = begin(Operation::RollbackFork(dir()));
        assert_eq!(task(&mut job, Event::Done), Task::DecodeCheckpoint);
        job
    };
    assert_eq!(
        answer(&mut decoding(), failed("e")),
        "ERR EINVAL decode rollback checkpoint: e\n"
    );
    let mut job = decoding();
    assert_eq!(task(&mut job, Event::Done), Task::Rollback);
    assert_eq!(answer(&mut job, Event::Done), "OK running\n");
    let mut job = decoding();
    assert_eq!(task(&mut job, Event::Done), Task::Rollback);
    assert_eq!(answer(&mut job, failed("e")), "ERR EIO rollback fork: e\n");
}

#[test]
fn a_restore_follows_its_plan() {
    let portable = RestorePlan::Portable {
        regions: regions(),
        image_len: 0x3000,
    };
    assert_eq!(
        portable.steps(Os::Linux, true),
        vec![
            RestoreStep::ReadCheckpoint,
            RestoreStep::OpenMemory,
            RestoreStep::MeasureMemory,
            RestoreStep::PromoteMemory
        ]
    );
    assert_eq!(portable.steps(Os::Linux, false)[3], RestoreStep::MapMemory);
    assert_eq!(portable.steps(Os::MacOs, true)[3], RestoreStep::MapMemory);
    assert_eq!(portable.steps(Os::Windows, true)[3], RestoreStep::LoadMemory);
    assert_eq!(portable.check_image(0x3000), Ok(()));
    assert_eq!(
        portable.check_image(1).unwrap_err(),
        "memory: image length 1 does not match manifest 12288"
    );
    assert_eq!(
        RestorePlan::Guardian(guardian()).steps(Os::Linux, false),
        vec![
            RestoreStep::ReadCheckpoint,
            RestoreStep::ConnectGuardian,
            RestoreStep::CreatePagedMemory
        ]
    );
    assert_eq!(
        RestorePlan::Fork {
            owner_pid: 1,
            memfds: memfds()
        }
        .steps(Os::Linux, false),
        vec![RestoreStep::ReadCheckpoint, RestoreStep::CowMapMemory]
    );
    let labels = [
        (RestoreStep::ReadManifest, "manifest: e"),
        (RestoreStep::ReadCheckpoint, "checkpoint: e"),
        (RestoreStep::OpenMemory, "memory: e"),
        (RestoreStep::MeasureMemory, "memory metadata: e"),
        (RestoreStep::PromoteMemory, "promote portable guest memory: e"),
        (RestoreStep::MapMemory, "map guest memory: e"),
        (RestoreStep::LoadMemory, "load guest memory: e"),
        (RestoreStep::ConnectGuardian, "connect RAM guardian: e"),
        (RestoreStep::CreatePagedMemory, "create demand-paged guest RAM: e"),
        (RestoreStep::CowMapMemory, "cow-map guest memory: e"),
    ];
    for (step, label) in labels {
        assert_eq!(step.failure("e"), label);
    }
}
