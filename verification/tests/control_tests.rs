use krun::control::{read_control_command, MAX_CONTROL_COMMAND_BYTES};
use krun::manifest::{
    decode_portable_manifest, encode_portable_manifest, ErrorKind, MemoryRegionDesc,
};

#[test]
fn control_commands_are_complete_and_bounded() {
    let command = format!("ROLLBACK_FORK /{}\nignored", "x".repeat(512));
    let parsed = read_control_command(command.as_bytes()).unwrap();
    assert_eq!(parsed, command.as_bytes()[..command.find('\n').unwrap()]);

    let oversized = vec![b'x'; MAX_CONTROL_COMMAND_BYTES + 1];
    let error = read_control_command(oversized.as_slice()).unwrap_err();
    assert_eq!(error.kind(), ErrorKind::InvalidData);
}

#[test]
fn portable_manifest_roundtrips_and_rejects_corruption() {
    let descs = vec![
        MemoryRegionDesc {
            gpa: 0x1000,
            len: 0x2000,
        },
        MemoryRegionDesc {
            gpa: 0x1_0000_0000,
            len: 0x4000,
        },
    ];
    let encoded = encode_portable_manifest(&descs);
    assert_eq!(decode_portable_manifest(&encoded).unwrap(), descs);

    assert!(decode_portable_manifest(&encoded[..encoded.len() - 1]).is_err());
    let mut trailing = encoded.clone();
    trailing.push(0);
    assert!(decode_portable_manifest(&trailing).is_err());
    let mut wrong_version = encoded;
    wrong_version[8..12].copy_from_slice(&2_u32.to_le_bytes());
    assert!(decode_portable_manifest(&wrong_version).is_err());

    let mut overlapping = encode_portable_manifest(&descs);
    overlapping[32..40].copy_from_slice(&0x2000_u64.to_le_bytes());
    assert!(decode_portable_manifest(&overlapping).is_err());

    let mut overflowing = encode_portable_manifest(&descs[..1]);
    overflowing[16..24].copy_from_slice(&u64::MAX.to_le_bytes());
    assert!(decode_portable_manifest(&overflowing).is_err());
}
