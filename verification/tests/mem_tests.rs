use krun::GuestRam;

#[test]
fn bounds_and_endianness() {
    let mut ram = GuestRam::new_owned(0x8000_0000, 4096);
    assert!(ram.load(0x7fff_ffff, 1).is_none());
    assert!(ram.load(0x8000_0ff9, 8).is_none());
    assert!(ram.store(0x8000_1000, 1, 0).is_none());

    ram.store(0x8000_0000, 8, 0x0102_0304_0506_0708).unwrap();
    assert_eq!(ram.load(0x8000_0000, 1), Some(0x08));
    assert_eq!(ram.load(0x8000_0007, 1), Some(0x01));
    // Misaligned byte-composed access.
    assert_eq!(ram.load(0x8000_0001, 4), Some(0x0405_0607));
    ram.store(0x8000_0003, 2, 0xbeef).unwrap();
    assert_eq!(ram.load(0x8000_0003, 2), Some(0xbeef));
}

#[test]
fn atomics_require_alignment() {
    let mut ram = GuestRam::new_owned(0, 64);
    assert!(ram.atomic_u32(2).is_none());
    assert!(ram.atomic_u64(4).is_none());
    let word = ram.atomic_u64(8).unwrap();
    ram.store_at(word, 8, 7);
    assert_eq!(ram.load(8, 8), Some(7));
}
