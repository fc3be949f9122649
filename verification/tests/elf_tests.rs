use krun::elf::{find_symbol, load, ElfError};
use krun::GuestRam;

const BASE: u64 = 0x8000_0000;

fn put(image: &mut Vec<u8>, at: usize, bytes: &[u8]) {
    if image.len() < at + bytes.len() {
        image.resize(at + bytes.len(), 0);
    }
    image[at..at + bytes.len()].copy_from_slice(bytes);
}

// One segment of four bytes from the file and four zeros; one symbol.
fn image() -> Vec<u8> {
    let mut e = Vec::new();
    put(&mut e, 0, &[0x7f, b'E', b'L', b'F', 2, 1]);
    put(&mut e, 24, &(BASE + 4).to_le_bytes()); // e_entry
    put(&mut e, 32, &64u64.to_le_bytes()); // e_phoff
    put(&mut e, 40, &256u64.to_le_bytes()); // e_shoff
    put(&mut e, 54, &56u16.to_le_bytes()); // e_phentsize
    put(&mut e, 56, &1u16.to_le_bytes()); // e_phnum
    put(&mut e, 58, &64u16.to_le_bytes()); // e_shentsize
    put(&mut e, 60, &2u16.to_le_bytes()); // e_shnum
    // PT_LOAD
    put(&mut e, 64, &1u32.to_le_bytes());
    put(&mut e, 64 + 8, &192u64.to_le_bytes()); // p_offset
    put(&mut e, 64 + 24, &(BASE + 0x10).to_le_bytes()); // p_paddr
    put(&mut e, 64 + 32, &4u64.to_le_bytes()); // p_filesz
    put(&mut e, 64 + 40, &8u64.to_le_bytes()); // p_memsz
    put(&mut e, 192, &[1, 2, 3, 4]);
    // Section 0: symbol table, two entries; section 1: its strings.
    put(&mut e, 256 + 4, &2u32.to_le_bytes());
    put(&mut e, 256 + 24, &400u64.to_le_bytes());
    put(&mut e, 256 + 32, &48u64.to_le_bytes());
    put(&mut e, 256 + 40, &1u32.to_le_bytes()); // sh_link
    put(&mut e, 256 + 56, &24u64.to_le_bytes()); // sh_entsize
    put(&mut e, 320 + 4, &3u32.to_le_bytes());
    put(&mut e, 320 + 24, &448u64.to_le_bytes());
    put(&mut e, 320 + 32, &8u64.to_le_bytes());
    put(&mut e, 400 + 24, &1u32.to_le_bytes()); // st_name
    put(&mut e, 400 + 24 + 8, &(BASE + 0x40).to_le_bytes()); // st_value
    put(&mut e, 448, b"\0tohost\0");
    e
}

#[test]
fn a_segment_is_copied_and_padded_with_zeros() {
    let mut ram = GuestRam::new_owned(BASE, 4096);
    ram.store(BASE + 0x10, 8, u64::MAX).unwrap();
    ram.store(BASE + 0x18, 8, u64::MAX).unwrap();
    assert_eq!(load(&image(), &mut ram), Ok(BASE + 4));
    assert_eq!(ram.load(BASE + 0x10, 8), Some(0x0403_0201));
    assert_eq!(ram.load(BASE + 0x18, 8), Some(u64::MAX));
}

#[test]
fn symbols_are_found_by_name() {
    assert_eq!(find_symbol(&image(), "tohost"), Some(BASE + 0x40));
    assert_eq!(find_symbol(&image(), "tohos"), None);
    assert_eq!(find_symbol(&image(), "fromhost"), None);
    assert_eq!(find_symbol(&[], "tohost"), None);
}

#[test]
fn each_elf_error_has_its_input() {
    let mut ram = GuestRam::new_owned(BASE, 4096);
    assert_eq!(load(&image()[..63], &mut ram), Err(ElfError::Truncated));
    let mut magic = image();
    magic[0] = 0;
    assert_eq!(load(&magic, &mut ram), Err(ElfError::BadMagic));
    let mut class = image();
    class[4] = 1;
    assert_eq!(load(&class, &mut ram), Err(ElfError::Unsupported));
    let mut order = image();
    order[5] = 2;
    assert_eq!(load(&order, &mut ram), Err(ElfError::Unsupported));
    let mut low = image();
    low[64 + 24..64 + 32].copy_from_slice(&0x1000u64.to_le_bytes());
    assert_eq!(load(&low, &mut ram), Err(ElfError::OutOfRam));
    let mut cut = image();
    cut.truncate(194);
    assert_eq!(load(&cut, &mut ram), Err(ElfError::Truncated));
}
