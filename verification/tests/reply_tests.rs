use krun::control::{
    capture_failed, first_step, fork_rolled_back, parse_command, parse_number, save_failed,
    step_for, CommandBuffer, Fed, GenerationFile, Operation, Platform, Reply, Step, Verb,
    MAX_CONTROL_COMMAND_BYTES,
};

fn everything() -> Platform {
    Platform {
        balloon: true,
        snapshot: true,
        deferred_save: true,
        fork: true,
        fork_continue: true,
        fork_continue_paged: true,
    }
}

fn bare() -> Platform {
    Platform {
        balloon: false,
        snapshot: false,
        deferred_save: false,
        fork: false,
        fork_continue: false,
        fork_continue_paged: false,
    }
}

fn answer(line: &str, platform: &Platform) -> String {
    match step_for(line, platform) {
        Step::Answer(reply) => reply.text(),
        Step::Perform(op) => panic!("{:?}", op),
    }
}

fn operation(line: &str) -> String {
    match step_for(line, &everything()) {
        Step::Perform(op) => format!("{:?}", op),
        Step::Answer(reply) => panic!("{:?}", reply),
    }
}

fn text(s: &str) -> String {
    s.to_string()
}

#[test]
fn a_command_ends_at_its_newline() {
    let mut buffer = CommandBuffer::new();
    assert_eq!(buffer.feed(Some(b'U')), Fed::More);
    assert_eq!(buffer.feed(Some(b'P')), Fed::More);
    assert_eq!(buffer.feed(Some(b'\n')), Fed::Complete);
    assert_eq!(buffer.into_bytes(), b"UP");

    // The end of the stream ends it too.
    let mut buffer = CommandBuffer::new();
    assert_eq!(buffer.feed(Some(b'U')), Fed::More);
    assert_eq!(buffer.feed(None), Fed::Complete);
    assert_eq!(buffer.into_bytes(), b"U");

    let mut buffer = CommandBuffer::new();
    for _ in 0..MAX_CONTROL_COMMAND_BYTES {
        assert_eq!(buffer.feed(Some(b'x')), Fed::More);
    }
    assert_eq!(buffer.feed(Some(b'x')), Fed::TooLong);
}

#[test]
fn commands_name_their_operation() {
    assert_eq!(operation("PAUSE"), "Pause");
    assert_eq!(operation("RESUME"), "Resume");
    assert_eq!(operation("STATUS\r\n"), "Status");
    assert_eq!(operation("BALLOON"), "BalloonQuery");
    assert_eq!(operation("BALLOON 512"), "BalloonSet(512)");
    assert_eq!(operation("CHECKPOINT a b"), "Checkpoint(\"a b\")");
    assert_eq!(operation("RESTORE c"), "Restore(\"c\")");
    assert_eq!(operation("SAVE /s"), "Save(\"/s\")");
    assert_eq!(operation("PREPARE_SAVE /s"), "PrepareSave(\"/s\")");
    assert_eq!(operation("FINISH_SAVE /s"), "FinishSave(\"/s\")");
    assert_eq!(operation("CANCEL_SAVE"), "CancelSave(\"\")");
    assert_eq!(operation("FORK /f"), "Fork(\"/f\")");
    assert_eq!(
        operation("FORK_CONTINUE /f"),
        "ForkContinue { dir: \"/f\", paged: false }"
    );
    assert_eq!(
        operation("FORK_CONTINUE_PAGED /f"),
        "ForkContinue { dir: \"/f\", paged: true }"
    );
    assert_eq!(operation("ROLLBACK_FORK /f"), "RollbackFork(\"/f\")");
}

#[test]
fn commands_without_their_argument_are_refused() {
    let all = everything();
    assert_eq!(answer("CHECKPOINT", &all), "ERR EINVAL checkpoint id required\n");
    assert_eq!(answer("RESTORE  ", &all), "ERR EINVAL checkpoint id required\n");
    assert_eq!(answer("SAVE", &all), "ERR EINVAL snapshot dir required\n");
    assert_eq!(answer("PREPARE_SAVE", &all), "ERR EINVAL snapshot dir required\n");
    assert_eq!(answer("FORK", &all), "ERR EINVAL fork snapshot dir required\n");
    assert_eq!(answer("FORK_CONTINUE", &all), "ERR EINVAL fork snapshot dir required\n");
    assert_eq!(answer("ROLLBACK_FORK", &all), "ERR EINVAL fork snapshot dir required\n");
    assert_eq!(answer("BALLOON many", &all), "ERR EINVAL balloon target must be MiB\n");
    assert_eq!(
        answer("BALLOON 4294967296", &all),
        "ERR EINVAL balloon target must be MiB\n"
    );
}

#[test]
fn a_platform_serves_its_own_commands_only() {
    let unknown = "ERR EINVAL unknown command\n";
    assert_eq!(answer("NONSENSE", &everything()), unknown);
    assert_eq!(answer("BALLOON", &bare()), unknown);
    assert_eq!(answer("SAVE /s", &bare()), unknown);
    assert_eq!(answer("FORK /f", &bare()), unknown);
    assert_eq!(answer("FORK_CONTINUE_PAGED /f", &bare()), unknown);
    assert!(bare().serves(Verb::Pause));
    assert!(!bare().serves(Verb::Fork));
    let command = parse_command("SAVE /s", &everything());
    assert_eq!(command.verb, Some(Verb::Save));
    assert_eq!(command.arg, "/s");
}

#[test]
fn the_first_step_reads_bytes() {
    let all = everything();
    assert!(matches!(first_step(b"", &all), Step::Answer(Reply::EmptyCommand)));
    assert_eq!(Reply::EmptyCommand.text(), "ERR EINVAL empty command\n");
    assert!(matches!(first_step(b"PAUSE", &all), Step::Perform(Operation::Pause)));
    // Bytes that are no text are replaced.
    match first_step(b"CHECKPOINT a\xffb", &all) {
        Step::Perform(Operation::Checkpoint(id)) => assert_eq!(id, "a\u{fffd}b"),
        other => panic!("{:?}", other),
    }
}

#[test]
fn numbers_are_bounded() {
    assert_eq!(parse_number("0", 10), Some(0));
    assert_eq!(parse_number("+7", 10), Some(7));
    assert_eq!(parse_number("10", 10), Some(10));
    assert_eq!(parse_number("11", 10), None);
    assert_eq!(parse_number("", 10), None);
    assert_eq!(parse_number("+", 10), None);
    assert_eq!(parse_number("-1", 10), None);
    assert_eq!(parse_number("1x", 10), None);
    assert_eq!(parse_number("007", 10), Some(7));
}

#[test]
fn replies_are_single_lines() {
    let cases = [
        (Reply::Paused, "OK paused\n"),
        (Reply::Running, "OK running\n"),
        (Reply::State(text("Running")), "OK Running\n"),
        (Reply::PagerFailed(text("e")), "ERR EIO RAM pager failed: e\n"),
        (
            Reply::Balloon {
                target_pages: 512,
                actual_pages: 300,
            },
            "OK target=2 actual=1\n",
        ),
        (Reply::BalloonTarget(64), "OK balloon target 64 MiB\n"),
        (Reply::NoDevice(text("e")), "ERR ENODEV e\n"),
        (
            Reply::Checkpointed {
                id: text("a"),
                bytes: 10,
            },
            "OK checkpointed a (10 bytes, paused)\n",
        ),
        (Reply::CheckpointFailed(text("e")), "ERR EIO checkpoint failed: e\n"),
        (Reply::NoCheckpoint(text("a")), "ERR ENOENT no checkpoint 'a'\n"),
        (Reply::Restored(text("a")), "OK restored a (paused)\n"),
        (Reply::RestoreFailed(text("e")), "ERR EIO restore failed: e\n"),
        (
            Reply::CreateFailed {
                dir: text("/d"),
                error: text("e"),
            },
            "ERR EIO create /d: e\n",
        ),
        (
            Reply::Saved {
                bytes: 4096,
                regions: 2,
                paused: true,
            },
            "OK saved (4096 bytes, 2 regions, paused)\n",
        ),
        (
            Reply::Saved {
                bytes: 4096,
                regions: 2,
                paused: false,
            },
            "OK saved (4096 bytes, 2 regions)\n",
        ),
        (Reply::SavePending, "ERR EBUSY another durable save is still pending\n"),
        (Reply::Prepared, "OK prepared (paused)\n"),
        (Reply::NoPreparedSave, "ERR ENOENT no prepared durable save\n"),
        (Reply::StartSaveFailed(text("e")), "ERR EAGAIN start durable save: e\n"),
        (Reply::Canceled, "OK canceled\n"),
        (Reply::NoSaveToCancel, "ERR ENOENT save is finishing or does not exist\n"),
        (
            Reply::NoMemfd { golden: true },
            "ERR EINVAL no memfd-backed RAM (start the golden VM with SMOLVM_FORKABLE=1)\n",
        ),
        (
            Reply::NoMemfd { golden: false },
            "ERR EINVAL no memfd-backed RAM (start the VM with SMOLVM_FORKABLE=1)\n",
        ),
        (
            Reply::ForkFailed {
                continuing: false,
                error: text("e"),
            },
            "ERR EIO fork checkpoint failed: e\n",
        ),
        (
            Reply::ForkFailed {
                continuing: true,
                error: text("e"),
            },
            "ERR EIO fork-continue checkpoint failed: e\n",
        ),
        (
            Reply::Forked { pid: -5, regions: 3 },
            "OK forked (frozen base, pid -5, 3 regions)\n",
        ),
        (
            Reply::ForkedGeneration {
                guardian: true,
                pid: 5,
                regions: 3,
                disks: 1,
            },
            "OK forked generation (running source, guardian pid 5, 3 regions, 1 disks)\n",
        ),
        (
            Reply::ForkedGeneration {
                guardian: false,
                pid: i32::MIN,
                regions: 0,
                disks: 0,
            },
            "OK forked generation (running source, memfd pid -2147483648, 0 regions, 0 disks)\n",
        ),
        (Reply::BlockPivots(text("e")), "ERR EINVAL read block pivots: e\n"),
        (
            Reply::SourceResumed {
                what: GenerationFile::Checkpoint,
                error: text("e"),
            },
            "ERR EIO write checkpoint: e; source already resumed\n",
        ),
        (
            Reply::SourceResumed {
                what: GenerationFile::GuardianManifest,
                error: text("e"),
            },
            "ERR EIO write guardian manifest: e; source already resumed\n",
        ),
        (
            Reply::RollbackRead {
                path: text("/p"),
                error: text("e"),
            },
            "ERR EIO read rollback checkpoint /p: e\n",
        ),
        (Reply::RollbackDecode(text("e")), "ERR EINVAL decode rollback checkpoint: e\n"),
        (Reply::RollbackFailed(text("e")), "ERR EIO rollback fork: e\n"),
        (
            Reply::ForkLost {
                failure: text("f"),
                error: text("e"),
                recovery: text("r"),
            },
            "ERR EIO f; rollback failed: e; r\n",
        ),
        (Reply::Failed(text("e")), "ERR EIO e\n"),
    ];
    for (reply, line) in cases {
        assert_eq!(reply.text(), line);
        assert!(reply.text().ends_with('\n'));
    }
}

#[test]
fn failures_choose_their_reply() {
    assert_eq!(
        capture_failed(text("a deferred durable save requires X")).text(),
        "ERR ENOTSUP a deferred durable save requires X\n"
    );
    assert_eq!(capture_failed(text("no RAM")).text(), "ERR EIO capture VM: no RAM\n");
    assert_eq!(save_failed(text("e"), None).text(), "ERR EIO e\n");
    assert_eq!(
        save_failed(text("e"), Some(text("r"))).text(),
        "ERR EIO e; resume after failed save: r\n"
    );
    assert_eq!(fork_rolled_back(text("f"), vec![]).text(), "ERR EIO f\n");
    assert_eq!(
        fork_rolled_back(text("f"), vec![text("a"), text("b")]).text(),
        "ERR EIO f; rollback succeeded but cleanup failed: a, b\n"
    );
}
