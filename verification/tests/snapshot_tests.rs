use krun::snapshot::{
    atomic_write_file, parse_block_pivots, partial_name, publish_portable_save, CleanStep,
    PivotFault, PublishStep, WriteStep,
};

fn pairs(found: &[(String, String)]) -> Vec<(&str, &str)> {
    found.iter().map(|(id, path)| (id.as_str(), path.as_str())).collect()
}

#[test]
fn block_pivots_are_read_line_by_line() {
    let (found, fault) = parse_block_pivots("vda\t/a.img\nvdb\t/b\tc.img\r\n");
    assert_eq!(pairs(&found), vec![("vda", "/a.img"), ("vdb", "/b\tc.img")]);
    assert_eq!(fault, None);
    // The last line needs no end.
    let (found, fault) = parse_block_pivots("vda\t/a.img");
    assert_eq!(pairs(&found), vec![("vda", "/a.img")]);
    assert_eq!(fault, None);
}

#[test]
fn block_pivot_faults_name_their_line() {
    let (found, fault) = parse_block_pivots("vda\t/a.img\nvdb /b.img\n");
    assert_eq!(pairs(&found), vec![("vda", "/a.img")]);
    assert_eq!(fault, Some(PivotFault::NoTab(2)));
    assert_eq!(fault.unwrap().message(), "block pivot line 2 needs id<TAB>path");

    for bad in ["\t/a.img", "vda\t", "vda\t/a\0b"] {
        let (found, fault) = parse_block_pivots(bad);
        assert!(found.is_empty());
        assert_eq!(fault, Some(PivotFault::Invalid(1)));
        assert_eq!(fault.unwrap().message(), "invalid block pivot line 1");
    }

    let (found, fault) = parse_block_pivots("");
    assert!(found.is_empty());
    assert_eq!(fault, Some(PivotFault::Missing));
    assert_eq!(fault.unwrap().message(), "at least one block pivot is required");
}

#[test]
fn the_manifest_is_published_last() {
    let steps = publish_portable_save();
    assert_eq!(steps.len(), 10);
    assert_eq!(steps[0], PublishStep::SyncMemory);
    assert_eq!(steps[9], PublishStep::PublishManifest);
    let failures: Vec<String> = steps.iter().map(|s| s.failure("EIO")).collect();
    assert_eq!(
        failures,
        vec![
            "sync memory image: EIO",
            "create checkpoint state: EIO",
            "write checkpoint state: EIO",
            "sync checkpoint state: EIO",
            "create snapshot manifest: EIO",
            "write snapshot manifest: EIO",
            "sync snapshot manifest: EIO",
            "publish memory image: EIO",
            "publish checkpoint state: EIO",
            "publish snapshot manifest: EIO",
        ]
    );
}

#[test]
fn files_are_written_whole() {
    let steps = atomic_write_file(true);
    assert_eq!(
        steps,
        vec![
            WriteStep::CreatePartial,
            WriteStep::Write,
            WriteStep::Sync,
            WriteStep::Link,
            WriteStep::RemovePartial,
            WriteStep::SyncParent,
        ]
    );
    assert_eq!(atomic_write_file(false), steps[..5].to_vec());
    assert_eq!(partial_name("manifest.bin"), "manifest.bin.partial");
    // A file that was not written through leaves nothing behind.
    for step in &steps[..4] {
        assert_eq!(step.failed(), Some(vec![CleanStep::RemovePartial]));
    }
    assert_eq!(WriteStep::RemovePartial.failed(), None);
    assert_eq!(
        WriteStep::SyncParent.failed(),
        Some(vec![CleanStep::RemoveFile, CleanStep::RemovePartial])
    );
}
