use krun::manifest::{
    decode_fork_manifest, decode_guardian_manifest, decode_portable_manifest,
    encode_fork_manifest, encode_guardian_manifest, encode_portable_manifest, fork_backed,
    memory_image_len, plan_restore, ErrorKind, ForkFault, GuardianFault, GuardianGenerationDesc,
    MemfdRegionDesc, MemoryRegionDesc, PortableFault, RestoreFault, RestorePlan,
};

fn region(gpa: u64, len: u64) -> MemoryRegionDesc {
    MemoryRegionDesc { gpa, len }
}

fn memfd(gpa: u64, len: u64, fd: i32, offset: u64, path: &str) -> MemfdRegionDesc {
    MemfdRegionDesc {
        gpa,
        len,
        fd,
        offset,
        path: path.to_string(),
    }
}

fn guardian() -> GuardianGenerationDesc {
    GuardianGenerationDesc {
        guardian_pid: 42,
        guardian_start_time: 7,
        socket_path: b"/run/g.sock".to_vec(),
        token: [0x5a; 32],
        regions: vec![region(0, 0x1000), region(0x1_0000, 0x2000)],
    }
}

fn with(mut bytes: Vec<u8>, at: usize, patch: &[u8]) -> Vec<u8> {
    bytes[at..at + patch.len()].copy_from_slice(patch);
    bytes
}

#[test]
fn a_portable_manifest_has_this_layout() {
    let encoded = encode_portable_manifest(&[region(0x1000, 0x2000)]);
    let mut expected = Vec::new();
    expected.extend_from_slice(&0x534d_4f4c_504f_5254u64.to_le_bytes());
    expected.extend_from_slice(&1u32.to_le_bytes());
    expected.extend_from_slice(&1u32.to_le_bytes());
    expected.extend_from_slice(&0x1000u64.to_le_bytes());
    expected.extend_from_slice(&0x2000u64.to_le_bytes());
    assert_eq!(encoded, expected);
}

#[test]
fn every_portable_fault_has_its_message() {
    let good = encode_portable_manifest(&[region(0x1000, 0x2000), region(0x4000, 0x1000)]);
    let fault = |bytes: &[u8]| decode_portable_manifest(bytes).unwrap_err();
    let cases = [
        (good[..12].to_vec(), PortableFault::Truncated, "portable manifest truncated"),
        (with(good.clone(), 0, &[0]), PortableFault::Magic, "bad portable manifest magic"),
        (
            with(good.clone(), 8, &[9]),
            PortableFault::Version,
            "unsupported portable manifest version",
        ),
        (
            with(good.clone(), 12, &0u32.to_le_bytes()),
            PortableFault::RegionCount,
            "invalid portable manifest region count",
        ),
        (
            with(good.clone(), 12, &4097u32.to_le_bytes()),
            PortableFault::RegionCount,
            "invalid portable manifest region count",
        ),
        (
            with(good.clone(), 24, &0u64.to_le_bytes()),
            PortableFault::ZeroLength,
            "zero-length portable memory region",
        ),
        (
            with(good.clone(), 16, &u64::MAX.to_le_bytes()),
            PortableFault::AddressOverflow,
            "portable memory region address overflow",
        ),
        (
            with(good.clone(), 32, &0x2fffu64.to_le_bytes()),
            PortableFault::Overlap,
            "overlapping or unsorted portable memory regions",
        ),
        (
            [good.clone(), vec![0]].concat(),
            PortableFault::Trailing,
            "portable manifest has trailing bytes",
        ),
    ];
    for (bytes, expected, message) in cases {
        let error = fault(&bytes);
        assert_eq!(error, expected);
        assert_eq!(error.message(), message);
        assert_eq!(error.kind(), ErrorKind::InvalidData);
    }
    assert_eq!(
        PortableFault::ImageOverflow.message(),
        "portable memory image length overflow"
    );
    // Regions that touch do not overlap.
    assert!(decode_portable_manifest(&with(good, 32, &0x3000u64.to_le_bytes())).is_ok());
}

#[test]
fn the_memory_image_is_as_long_as_its_regions() {
    assert_eq!(memory_image_len(&[]), 0);
    assert_eq!(
        memory_image_len(&[region(0x1000, 0x2000), region(0x1_0000_0000, 0x4000)]),
        0x6000
    );
}

#[test]
fn a_fork_manifest_round_trips() {
    let descs = vec![memfd(0, 0x1000, 5, 0, ""), memfd(0x8000, 0x2000, -1, 0x40, "/tmp/r\u{e4}m")];
    let encoded = encode_fork_manifest(-3, &descs);
    assert_eq!(encoded[0..8], 0x534d_4f4c_464f_524bu64.to_le_bytes());
    assert_eq!(encoded[8..12], (-3i32).to_le_bytes());
    assert_eq!(encoded[12..16], 2u32.to_le_bytes());

    let (pid, decoded) = decode_fork_manifest(&encoded).unwrap();
    assert_eq!(pid, -3);
    assert_eq!(decoded.len(), 2);
    for (d, e) in decoded.iter().zip(&descs) {
        assert_eq!(d.gpa, e.gpa);
        assert_eq!(d.len, e.len);
        assert_eq!(d.fd, e.fd);
        assert_eq!(d.offset, e.offset);
        assert_eq!(d.path, e.path);
    }

    // What follows the regions is not read.
    let longer = [encoded, vec![1, 2, 3]].concat();
    assert_eq!(decode_fork_manifest(&longer).unwrap().1.len(), 2);
}

#[test]
fn every_fork_fault_has_its_message() {
    let good = encode_fork_manifest(1, &[memfd(0, 0x1000, 5, 0, "ab")]);
    let cut = decode_fork_manifest(&good[..good.len() - 1]).unwrap_err();
    assert_eq!(cut, ForkFault::Truncated);
    assert_eq!(cut.message(), "fork manifest truncated");
    assert_eq!(cut.kind(), ErrorKind::UnexpectedEof);

    let magic = decode_fork_manifest(&with(good.clone(), 0, &[0])).unwrap_err();
    assert_eq!(magic, ForkFault::Magic);
    assert_eq!(magic.message(), "bad fork manifest magic");
    assert_eq!(magic.kind(), ErrorKind::InvalidData);

    let n = good.len();
    let path = decode_fork_manifest(&with(good, n - 1, &[0xff])).unwrap_err();
    assert_eq!(path, ForkFault::PathEncoding);
    assert_eq!(path.message(), "fork manifest: non-UTF8 region path");
    assert_eq!(path.kind(), ErrorKind::InvalidData);
}

#[test]
fn a_guardian_manifest_round_trips() {
    let desc = guardian();
    let encoded = encode_guardian_manifest(&desc).unwrap();
    // Header, token, socket path, regions.
    assert_eq!(encoded.len(), 40 + 32 + 11 + 2 * 16);
    let decoded = decode_guardian_manifest(&encoded).unwrap();
    assert_eq!(decoded.guardian_pid, 42);
    assert_eq!(decoded.guardian_start_time, 7);
    assert_eq!(decoded.socket_path, desc.socket_path);
    assert_eq!(decoded.token, desc.token);
    assert_eq!(decoded.regions, desc.regions);
}

#[test]
fn every_guardian_fault_has_its_message() {
    let good = encode_guardian_manifest(&guardian()).unwrap();
    let regions = 40 + 32 + 11;
    let cases = [
        (good[..20].to_vec(), GuardianFault::Truncated, "guardian manifest is truncated"),
        (with(good.clone(), 0, &[0]), GuardianFault::Magic, "bad guardian manifest magic"),
        (
            with(good.clone(), 8, &[2]),
            GuardianFault::Version,
            "unsupported guardian manifest version",
        ),
        (
            with(good.clone(), 12, &[1]),
            GuardianFault::Flags,
            "guardian manifest has unsupported flags",
        ),
        (
            with(good.clone(), 16, &0u32.to_le_bytes()),
            GuardianFault::Process,
            "guardian manifest has invalid process metadata",
        ),
        (
            with(good.clone(), 20, &[1]),
            GuardianFault::Process,
            "guardian manifest has invalid process metadata",
        ),
        (
            with(good.clone(), 24, &0u64.to_le_bytes()),
            GuardianFault::StartTime,
            "guardian manifest has zero process start time",
        ),
        (
            with(good.clone(), 32, &101u32.to_le_bytes()),
            GuardianFault::Dimensions,
            "guardian manifest has invalid dimensions",
        ),
        (
            with(good.clone(), 36, &257u32.to_le_bytes()),
            GuardianFault::Dimensions,
            "guardian manifest has invalid dimensions",
        ),
        (
            with(good.clone(), 40, &[0; 32]),
            GuardianFault::Token,
            "guardian manifest has an empty token",
        ),
        (
            with(good.clone(), 72, b"x"),
            GuardianFault::RelativePath,
            "guardian socket path must be absolute",
        ),
        (
            with(good.clone(), regions, &u64::MAX.to_le_bytes()),
            GuardianFault::AddressOverflow,
            "guardian RAM region address overflow",
        ),
        (
            with(good.clone(), regions + 8, &0x1001u64.to_le_bytes()),
            GuardianFault::Regions,
            "guardian RAM regions are invalid or overlapping",
        ),
        (
            with(good.clone(), regions + 16, &0x800u64.to_le_bytes()),
            GuardianFault::Regions,
            "guardian RAM regions are invalid or overlapping",
        ),
        (
            [good.clone(), vec![0]].concat(),
            GuardianFault::Trailing,
            "guardian manifest has trailing bytes",
        ),
    ];
    for (bytes, expected, message) in cases {
        let error = decode_guardian_manifest(&bytes).unwrap_err();
        assert_eq!(error, expected);
        assert_eq!(error.message(), message);
        assert_eq!(error.kind(), ErrorKind::InvalidData);
    }
    assert_eq!(GuardianFault::SocketTooLong.message(), "guardian socket path is too long");
    assert_eq!(GuardianFault::SocketTooLong.kind(), ErrorKind::InvalidInput);
    assert_eq!(GuardianFault::TooManyRegions.message(), "too many RAM regions");
    assert_eq!(GuardianFault::TooManyRegions.kind(), ErrorKind::InvalidInput);
}

#[test]
fn a_restore_follows_the_manifest() {
    let portable = encode_portable_manifest(&[region(0x1000, 0x2000)]);
    let plan = plan_restore(&portable, true).unwrap();
    assert!(matches!(plan, RestorePlan::Portable { image_len: 0x2000, .. }));
    assert_eq!(plan.fork_backed_regions(), vec![true]);
    assert!(plan.portable_clock());

    let generation = encode_guardian_manifest(&guardian()).unwrap();
    let plan = plan_restore(&generation, true).unwrap();
    assert!(matches!(&plan, RestorePlan::Guardian(d) if d.guardian_pid == 42));
    assert_eq!(plan.fork_backed_regions(), vec![true, true]);
    assert!(!plan.portable_clock());
    // Without guardians the format is not known.
    assert_eq!(
        plan_restore(&generation, false).unwrap_err(),
        RestoreFault::Unrecognized
    );

    let backed = memfd(0, 0x1000, 5, 0, "");
    let filed = memfd(0x8000, 0x1000, -1, 0, "/m");
    let bare = memfd(0x9000, 0x1000, -1, 0, "");
    assert!(fork_backed(&backed));
    assert!(fork_backed(&filed));
    assert!(!fork_backed(&bare));
    let fork = encode_fork_manifest(9, &[backed, filed, bare]);
    let plan = plan_restore(&fork, false).unwrap();
    assert!(matches!(plan, RestorePlan::Fork { owner_pid: 9, .. }));
    assert_eq!(plan.fork_backed_regions(), vec![true, true, false]);
    assert!(!plan.portable_clock());
}

#[test]
fn a_restore_names_what_is_wrong() {
    let short = plan_restore(&[1, 2, 3], true).unwrap_err();
    assert_eq!(short.message(), "manifest: truncated");
    let unknown = plan_restore(&[0; 8], true).unwrap_err();
    assert_eq!(unknown.message(), "manifest: unrecognized snapshot format");
    let portable = encode_portable_manifest(&[region(0x1000, 0x2000)]);
    assert_eq!(
        plan_restore(&portable[..20], true).unwrap_err().message(),
        "manifest: portable manifest truncated"
    );
    let generation = encode_guardian_manifest(&guardian()).unwrap();
    assert_eq!(
        plan_restore(&generation[..20], true).unwrap_err().message(),
        "guardian manifest: guardian manifest is truncated"
    );
    let fork = encode_fork_manifest(9, &[memfd(0, 0x1000, 5, 0, "")]);
    assert_eq!(
        plan_restore(&fork[..20], true).unwrap_err().message(),
        "manifest: fork manifest truncated"
    );
}
